//! Declarative service definitions: one `Service` per `.toml` file.
use vstd::prelude::*;
use crate::text::{concat, push_char, str_eq, str_views, chars_of};

verus! {

/// A oneshot up/down action: either a single command line (kept verbatim as
/// execline) or a list of commands run in sequence (rendered as one
/// `/bin/sh -c` script).
pub enum Cmd {
    One(String),
    Many(Vec<String>),
}

/// How one character is written inside an execline double-quoted word.
pub open spec fn escape_char(c: char) -> Seq<char> {
    if c == '\\' {
        seq!['\\', '\\']
    } else if c == '"' {
        seq!['\\', '"']
    } else {
        seq![c]
    }
}

/// A line with `\` and `"` escaped for an execline double-quoted word.
pub open spec fn escape(s: Seq<char>) -> Seq<char>
    decreases s.len(),
{
    if s.len() == 0 {
        Seq::<char>::empty()
    } else {
        escape(s.drop_last()) + escape_char(s.last())
    }
}

/// Each line escaped and followed by a newline.
pub open spec fn escaped_lines(ls: Seq<Seq<char>>) -> Seq<char>
    decreases ls.len(),
{
    if ls.len() == 0 {
        Seq::<char>::empty()
    } else {
        escaped_lines(ls.drop_last()) + escape(ls.last()) + seq!['\n']
    }
}

/// Reading an escaped word back: a backslash makes the character after it
/// literal.
pub open spec fn unescape(s: Seq<char>) -> Seq<char>
    decreases s.len(),
{
    if s.len() == 0 {
        Seq::<char>::empty()
    } else if s[0] == '\\' && s.len() >= 2 {
        seq![s[1]] + unescape(s.skip(2))
    } else {
        seq![s[0]] + unescape(s.skip(1))
    }
}

/// No double quote stands in the word unescaped: reading it as `unescape`
/// does, every `"` is one that a backslash makes literal.
pub open spec fn no_bare_quote(s: Seq<char>) -> bool
    decreases s.len(),
{
    if s.len() == 0 {
        true
    } else if s[0] == '\\' && s.len() >= 2 {
        no_bare_quote(s.skip(2))
    } else {
        s[0] != '"' && no_bare_quote(s.skip(1))
    }
}

/// The lines, each followed by a newline.
pub open spec fn joined_lines(ls: Seq<Seq<char>>) -> Seq<char>
    decreases ls.len(),
{
    if ls.len() == 0 {
        Seq::<char>::empty()
    } else {
        joined_lines(ls.drop_last()) + ls.last() + seq!['\n']
    }
}

proof fn lemma_unescape_char(c: char, t: Seq<char>)
    ensures
        unescape(escape_char(c) + t) == seq![c] + unescape(t),
        c != '\n' ==> no_bare_quote(escape_char(c) + t) == no_bare_quote(t),
        no_bare_quote(seq!['\n'] + t) == no_bare_quote(t),
{
    assert((seq!['\n'] + t).skip(1) =~= t);
    let u = escape_char(c) + t;
    if c == '\\' || c == '"' {
        assert(u[0] == '\\' && u[1] == c);
        assert(u.skip(2) =~= t);
    } else {
        assert(u[0] == c);
        assert(u.skip(1) =~= t);
    }
}

proof fn lemma_unescape_escape(s: Seq<char>, t: Seq<char>)
    ensures
        unescape(escape(s) + t) == s + unescape(t),
        no_bare_quote(escape(s) + t) == no_bare_quote(t),
    decreases s.len(),
{
    if s.len() > 0 {
        let c = s.last();
        lemma_unescape_escape(s.drop_last(), escape_char(c) + t);
        lemma_unescape_char(c, t);
        assert(escape(s) + t =~= escape(s.drop_last()) + (escape_char(c) + t));
        assert(s =~= s.drop_last() + seq![c]);
        assert(s.drop_last() + (seq![c] + unescape(t)) =~= s + unescape(t));
    } else {
        assert(escape(s) + t =~= t);
        assert(s + unescape(t) =~= unescape(t));
    }
}

proof fn lemma_unescape_lines(ls: Seq<Seq<char>>, t: Seq<char>)
    ensures
        unescape(escaped_lines(ls) + t) == joined_lines(ls) + unescape(t),
        no_bare_quote(escaped_lines(ls) + t) == no_bare_quote(t),
    decreases ls.len(),
{
    if ls.len() > 0 {
        let l = ls.last();
        let nl_t = seq!['\n'] + t;
        lemma_unescape_lines(ls.drop_last(), escape(l) + nl_t);
        lemma_unescape_escape(l, nl_t);
        lemma_unescape_char('\n', t);
        assert(escape_char('\n') =~= seq!['\n']);
        assert(escaped_lines(ls) + t =~= escaped_lines(ls.drop_last()) + (escape(l) + nl_t));
        assert(joined_lines(ls) + unescape(t) =~= joined_lines(ls.drop_last()) + (l + (seq!['\n'] + unescape(t))));
    } else {
        assert(escaped_lines(ls) + t =~= t);
        assert(joined_lines(ls) + unescape(t) =~= unescape(t));
    }
}

/// The script body that `Cmd::Many` renders holds no unescaped double
/// quote, so it cannot end the quoted word early, and reading it back gives
/// the lines themselves, each followed by a newline.
pub proof fn lemma_script_body_round_trip(ls: Seq<Seq<char>>)
    ensures
        no_bare_quote(escaped_lines(ls)),
        unescape(escaped_lines(ls)) == joined_lines(ls),
{
    lemma_unescape_lines(ls, Seq::<char>::empty());
    assert(escaped_lines(ls) + Seq::<char>::empty() =~= escaped_lines(ls));
    assert(joined_lines(ls) + unescape(Seq::<char>::empty()) =~= joined_lines(ls));
}

/// Contents of a oneshot `up`/`down` file.
pub open spec fn render_spec(c: Cmd) -> Seq<char> {
    match c {
        Cmd::One(s) => s@.push('\n'),
        Cmd::Many(lines) => "/bin/sh -c \"\n"@ + escaped_lines(str_views(lines@)) + "\"\n"@,
    }
}

fn escape_str(s: &str) -> (r: String)
    ensures
        r@ == escape(s@),
{
    let v = chars_of(s);
    let mut r = String::new();
    let mut i: usize = 0;
    while i < v.len()
        invariant
            i <= v.len(),
            r@ == escape(v@.take(i as int)),
        decreases v.len() - i,
    {
        let c = v[i];
        assert(v@.take(i + 1).drop_last() =~= v@.take(i as int));
        let ghost before = r@;
        if c == '\\' {
            push_char(&mut r, '\\');
            push_char(&mut r, '\\');
        } else if c == '"' {
            push_char(&mut r, '\\');
            push_char(&mut r, '"');
        } else {
            push_char(&mut r, c);
        }
        assert(r@ =~= before + escape_char(c));
        i += 1;
    }
    assert(v@.take(v.len() as int) =~= v@);
    r
}

impl Cmd {
    /// Contents of a oneshot `up`/`down` file (valid execline either way).
    pub fn render(&self) -> (r: String)
        ensures
            r@ == render_spec(*self),
    {
        match self {
            Cmd::One(s) => {
                let mut r = s.clone();
                push_char(&mut r, '\n');
                r
            },
            Cmd::Many(lines) => {
                let mut body = String::new();
                let mut i: usize = 0;
                while i < lines.len()
                    invariant
                        i <= lines.len(),
                        body@ == escaped_lines(str_views(lines@).take(i as int)),
                    decreases lines.len() - i,
                {
                    assert(str_views(lines@).take(i + 1).drop_last() =~= str_views(lines@).take(
                        i as int,
                    ));
                    let e = escape_str(lines[i].as_str());
                    body.append(e.as_str());
                    push_char(&mut body, '\n');
                    i += 1;
                }
                assert(str_views(lines@).take(lines.len() as int) =~= str_views(lines@));
                let mut r = concat("/bin/sh -c \"\n", body.as_str());
                r.append("\"\n");
                r
            },
        }
    }
}

/// One declarative service definition. The composer turns it into a full
/// s6-rc service directory.
pub struct Service {
    /// Service name (also the s6-rc service-dir name).
    pub name: String,
    /// "longrun", "oneshot" or "bundle".
    pub kind: String,
    /// The daemon command line (longrun).
    pub exec_cmd: Option<String>,
    /// Shell lines run before `exec` in the run script.
    pub setup: Vec<String>,
    /// Run the daemon as this user (via s6-setuidgid). Empty = root.
    pub user: Option<String>,
    /// Optional finish script body.
    pub finish: Option<String>,
    /// A complete run script body, used verbatim.
    pub run: Option<String>,
    /// Readiness check: "dbus:NAME", "path:/p" or "exec:CMD" (longrun only).
    pub ready: Option<String>,
    /// Attach a generated `<name>-log` logger (longrun only).
    pub log: bool,
    /// A oneshot's `up` action.
    pub up: Option<Cmd>,
    /// A oneshot's optional `down` action.
    pub down: Option<Cmd>,
    /// Explicit members, for bundles.
    pub contents: Vec<String>,
    /// Services this one depends on.
    pub needs: Vec<String>,
    /// Bundles this service joins.
    pub bundles: Vec<String>,
    /// System bus name this service owns (parsed, not yet generated).
    pub dbus_name: Option<String>,
    /// polkit action prefix (parsed, not yet generated).
    pub polkit_allow: Option<String>,
}

/// The kind a declaration has when it names none.
pub fn default_type() -> (r: String)
    ensures
        r@ == "longrun"@,
{
    String::from_str("longrun")
}

impl Service {
    /// A bundle: a named set of services.
    pub fn is_bundle(&self) -> (r: bool)
        ensures
            r == (self.kind@ == "bundle"@),
    {
        str_eq(self.kind.as_str(), "bundle")
    }

    /// A oneshot: run once on the way up (and down).
    pub fn is_oneshot(&self) -> (r: bool)
        ensures
            r == (self.kind@ == "oneshot"@),
    {
        str_eq(self.kind.as_str(), "oneshot")
    }

    /// A longrun: a supervised daemon.
    pub fn is_longrun(&self) -> (r: bool)
        ensures
            r == (self.kind@ == "longrun"@),
    {
        str_eq(self.kind.as_str(), "longrun")
    }
}

/// How many of the services are of the given kind.
pub open spec fn count_kind(s: Seq<Service>, k: Seq<char>) -> nat
    decreases s.len(),
{
    if s.len() == 0 {
        0
    } else {
        count_kind(s.drop_last(), k) + if s.last().kind@ == k {
            1nat
        } else {
            0nat
        }
    }
}

proof fn lemma_count_kind_le(s: Seq<Service>, k: Seq<char>)
    ensures
        count_kind(s, k) <= s.len(),
    decreases s.len(),
{
    if s.len() > 0 {
        lemma_count_kind_le(s.drop_last(), k);
    }
}

/// The numbers of longruns, oneshots and bundles.
pub fn counts(services: &Vec<Service>) -> (r: (usize, usize, usize))
    ensures
        r.0 == count_kind(services@, "longrun"@),
        r.1 == count_kind(services@, "oneshot"@),
        r.2 == count_kind(services@, "bundle"@),
{
    let mut l: usize = 0;
    let mut o: usize = 0;
    let mut b: usize = 0;
    let mut i: usize = 0;
    while i < services.len()
        invariant
            i <= services.len(),
            l == count_kind(services@.take(i as int), "longrun"@),
            o == count_kind(services@.take(i as int), "oneshot"@),
            b == count_kind(services@.take(i as int), "bundle"@),
        decreases services.len() - i,
    {
        assert(services@.take(i + 1).drop_last() =~= services@.take(i as int));
        proof {
            lemma_count_kind_le(services@.take(i as int), "longrun"@);
            lemma_count_kind_le(services@.take(i as int), "oneshot"@);
            lemma_count_kind_le(services@.take(i as int), "bundle"@);
        }
        if services[i].is_longrun() {
            l += 1;
        }
        if services[i].is_oneshot() {
            o += 1;
        }
        if services[i].is_bundle() {
            b += 1;
        }
        i += 1;
    }
    assert(services@.take(services.len() as int) =~= services@);
    (l, o, b)
}

} // verus!
