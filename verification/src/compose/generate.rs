//! Weaving service declarations into an s6-rc source tree. The tree is
//! described as a list of files (path relative to the output directory,
//! contents, executable bit) written in order; the caller writes them.
use vstd::prelude::*;
use crate::compose::schema::{Service, render_spec};
use crate::text::{str_eq, str_views, push_char, concat, join, join_strings};
use crate::order::{sort_dedup, sorted_set, sorted_of_set, strictly_sorted, lemma_sorted_set};

verus! {

/// Why a set of declarations cannot be woven. Services are named by their
/// position in the declarations; references by their position in the
/// service's list.
#[derive(Clone, Copy, Debug, PartialEq, Eq, Structural)]
pub enum ComposeError {
    /// `ready` on a service that is not a longrun.
    ReadyNotLongrun { service: usize },
    /// `ready` together with a raw `run` script.
    ReadyWithRun { service: usize },
    /// `log` on a service that is not a longrun.
    LogNotLongrun { service: usize },
    /// `log` would generate `<name>-log`, but that name is declared.
    LogNameTaken { service: usize },
    /// A longrun with neither `exec` nor `run`.
    MissingExec { service: usize },
    /// A `ready` spec without `:`.
    BadReadySpec { service: usize },
    /// A `ready` spec whose kind is not dbus, path or exec.
    UnknownReadyKind { service: usize },
    /// A oneshot without `up`.
    MissingUp { service: usize },
    /// A kind other than longrun, oneshot and bundle.
    UnknownKind { service: usize },
    /// A bundle that ends up with no members.
    EmptyBundle { service: usize },
    /// `needs[index]` names no declared service.
    UnknownDependency { service: usize, index: usize },
    /// `contents[index]` names no declared service.
    UnknownMember { service: usize, index: usize },
    /// `bundles[index]` names no declared service.
    UnknownBundle { service: usize, index: usize },
}

/// One file of the generated tree.
pub struct OutFile {
    /// Path relative to the output directory, `/`-separated.
    pub path: String,
    pub content: String,
    /// Written with mode 0755.
    pub executable: bool,
}

impl View for OutFile {
    type V = (Seq<char>, Seq<char>, bool);

    open spec fn view(&self) -> (Seq<char>, Seq<char>, bool) {
        (self.path@, self.content@, self.executable)
    }
}

pub open spec fn file_views(v: Seq<OutFile>) -> Seq<(Seq<char>, Seq<char>, bool)> {
    v.map_values(|f: OutFile| f@)
}

/// `dir/file`.
pub open spec fn at(dir: Seq<char>, file: Seq<char>) -> Seq<char> {
    dir + seq!['/'] + file
}

fn at_exec(dir: &str, file: &str) -> (r: String)
    ensures
        r@ == at(dir@, file@),
{
    let mut r = dir.to_owned();
    push_char(&mut r, '/');
    r.append(file);
    r
}

fn out(path: String, content: String, executable: bool) -> (f: OutFile)
    ensures
        f@ == (path@, content@, executable),
{
    OutFile { path, content, executable }
}

/// Some declared service has this name.
pub open spec fn declared(all: Seq<Service>, name: Seq<char>) -> bool {
    exists|k: int| 0 <= k < all.len() && (#[trigger] all[k]).name@ == name
}

fn is_declared(all: &Vec<Service>, name: &str) -> (r: bool)
    ensures
        r == declared(all@, name@),
{
    let mut k: usize = 0;
    while k < all.len()
        invariant
            k <= all.len(),
            forall|j: int| 0 <= j < k ==> (#[trigger] all@[j]).name@ != name@,
        decreases all.len() - k,
    {
        if str_eq(all[k].name.as_str(), name) {
            return true;
        }
        k += 1;
    }
    false
}

// ---------------------------------------------------------------------------
// cross-reference validation

/// Index of the first name in `refs` that is not declared.
pub open spec fn first_unknown(all: Seq<Service>, refs: Seq<Seq<char>>) -> Option<nat>
    decreases refs.len(),
{
    if refs.len() == 0 {
        None
    } else {
        match first_unknown(all, refs.drop_last()) {
            Some(j) => Some(j),
            None => if declared(all, refs.last()) {
                None
            } else {
                Some((refs.len() - 1) as nat)
            },
        }
    }
}

proof fn lemma_first_unknown(all: Seq<Service>, refs: Seq<Seq<char>>)
    ensures
        first_unknown(all, refs) is None <==> forall|j: int|
            0 <= j < refs.len() ==> declared(all, #[trigger] refs[j]),
        first_unknown(all, refs) matches Some(j) ==> j < refs.len() && !declared(all, refs[j as int]),
    decreases refs.len(),
{
    if refs.len() > 0 {
        lemma_first_unknown(all, refs.drop_last());
        if first_unknown(all, refs.drop_last()) is None {
            assert forall|j: int| 0 <= j < refs.len() - 1 implies declared(all, #[trigger] refs[j]) by {
                assert(refs[j] == refs.drop_last()[j]);
            }
        } else {
            let j = first_unknown(all, refs.drop_last())->0;
            assert(refs[j as int] == refs.drop_last()[j as int]);
        }
    }
}

fn find_unknown(all: &Vec<Service>, refs: &Vec<String>) -> (r: Option<usize>)
    ensures
        r matches Some(j) ==> first_unknown(all@, str_views(refs@)) == Some(j as nat),
        r is None ==> first_unknown(all@, str_views(refs@)) is None,
{
    let mut j: usize = 0;
    while j < refs.len()
        invariant
            j <= refs.len(),
            first_unknown(all@, str_views(refs@).take(j as int)) is None,
        decreases refs.len() - j,
    {
        assert(str_views(refs@).take(j + 1).drop_last() =~= str_views(refs@).take(j as int));
        if !is_declared(all, refs[j].as_str()) {
            proof {
                lemma_first_unknown_prefix(all@, str_views(refs@), j + 1);
            }
            return Some(j);
        }
        j += 1;
    }
    assert(str_views(refs@).take(refs.len() as int) =~= str_views(refs@));
    None
}

proof fn lemma_first_unknown_prefix(all: Seq<Service>, refs: Seq<Seq<char>>, n: int)
    requires
        0 < n <= refs.len(),
        first_unknown(all, refs.take(n)) matches Some(j) && j == n - 1,
    ensures
        first_unknown(all, refs) == Some((n - 1) as nat),
    decreases refs.len() - n,
{
    if n < refs.len() {
        assert(refs.drop_last().take(n) =~= refs.take(n));
        lemma_first_unknown_prefix(all, refs.drop_last(), n);
        lemma_first_unknown(all, refs.drop_last());
    } else {
        assert(refs.take(n) =~= refs);
    }
}

/// The first broken reference of service `i`: a dependency, then a bundle
/// member, then a bundle to join.
pub open spec fn service_ref_error(all: Seq<Service>, i: int) -> Option<ComposeError> {
    let s = all[i];
    match first_unknown(all, str_views(s.needs@)) {
        Some(j) => Some(ComposeError::UnknownDependency { service: i as usize, index: j as usize }),
        None => match first_unknown(all, str_views(s.contents@)) {
            Some(j) => Some(ComposeError::UnknownMember { service: i as usize, index: j as usize }),
            None => match first_unknown(all, str_views(s.bundles@)) {
                Some(j) => Some(
                    ComposeError::UnknownBundle { service: i as usize, index: j as usize },
                ),
                None => None,
            },
        },
    }
}

/// The first broken reference among the first `n` services.
pub open spec fn first_ref_error(all: Seq<Service>, n: int) -> Option<ComposeError>
    decreases n,
{
    if n <= 0 {
        None
    } else {
        match first_ref_error(all, n - 1) {
            Some(e) => Some(e),
            None => service_ref_error(all, n - 1),
        }
    }
}

/// Every name in the service's `needs`, `contents` and `bundles` is a
/// declared service.
pub open spec fn service_refs_ok(all: Seq<Service>, s: Service) -> bool {
    &&& forall|j: int| 0 <= j < s.needs@.len() ==> declared(all, (#[trigger] s.needs@[j])@)
    &&& forall|j: int| 0 <= j < s.contents@.len() ==> declared(all, (#[trigger] s.contents@[j])@)
    &&& forall|j: int| 0 <= j < s.bundles@.len() ==> declared(all, (#[trigger] s.bundles@[j])@)
}

/// Every name in `needs`, `contents` and `bundles` is a declared service.
pub open spec fn refs_resolve(all: Seq<Service>) -> bool {
    forall|i: int| 0 <= i < all.len() ==> service_refs_ok(all, #[trigger] all[i])
}

proof fn lemma_first_ref_error(all: Seq<Service>, n: int)
    requires
        0 <= n <= all.len(),
    ensures
        first_ref_error(all, n) is None <==> forall|i: int|
            0 <= i < n ==> #[trigger] service_ref_error(all, i) is None,
    decreases n,
{
    if n > 0 {
        lemma_first_ref_error(all, n - 1);
    }
}

proof fn lemma_service_ref_error(all: Seq<Service>, i: int)
    requires
        0 <= i < all.len(),
    ensures
        service_ref_error(all, i) is None <==> service_refs_ok(all, all[i]),
{
    let s = all[i];
    lemma_first_unknown(all, str_views(s.needs@));
    lemma_first_unknown(all, str_views(s.contents@));
    lemma_first_unknown(all, str_views(s.bundles@));
    assert forall|j: int| 0 <= j < s.needs@.len() implies str_views(s.needs@)[j] == (
    #[trigger] s.needs@[j])@ by {}
    assert forall|j: int| 0 <= j < s.contents@.len() implies str_views(s.contents@)[j] == (
    #[trigger] s.contents@[j])@ by {}
    assert forall|j: int| 0 <= j < s.bundles@.len() implies str_views(s.bundles@)[j] == (
    #[trigger] s.bundles@[j])@ by {}
}

/// The cross-reference check: every dependency, bundle member and bundle a
/// service joins must be a declared service.
pub proof fn lemma_validate_means_resolved(all: Seq<Service>)
    ensures
        first_ref_error(all, all.len() as int) is None <==> refs_resolve(all),
{
    lemma_first_ref_error(all, all.len() as int);
    assert forall|i: int| 0 <= i < all.len() implies (#[trigger] service_ref_error(all, i) is None
        <==> service_refs_ok(all, all[i])) by {
        lemma_service_ref_error(all, i);
    }
    if refs_resolve(all) {
        assert forall|i: int| 0 <= i < all.len() implies #[trigger] service_ref_error(all, i) is None by {
            assert(service_refs_ok(all, all[i]));
        }
    }
    if first_ref_error(all, all.len() as int) is None {
        assert forall|i: int| 0 <= i < all.len() implies service_refs_ok(all, #[trigger] all[i]) by {
            assert(service_ref_error(all, i) is None);
        }
    }
}

/// Every name referenced in `needs`, a bundle's `contents` or `bundles` must
/// be a declared service: the first one that is not is reported.
pub fn validate(services: &Vec<Service>) -> (r: Result<(), ComposeError>)
    ensures
        r matches Err(e) ==> first_ref_error(services@, services@.len() as int) == Some(e),
        r is Ok ==> first_ref_error(services@, services@.len() as int) is None,
        r is Ok <==> refs_resolve(services@),
{
    let mut i: usize = 0;
    while i < services.len()
        invariant
            i <= services.len(),
            first_ref_error(services@, i as int) is None,
        decreases services.len() - i,
    {
        let s = &services[i];
        match find_unknown(services, &s.needs) {
            Some(j) => {
                proof {
                    lemma_first_ref_error_stops(services@, i as int + 1);
                    lemma_validate_means_resolved(services@);
                }
                return Err(ComposeError::UnknownDependency { service: i, index: j });
            },
            None => {},
        }
        match find_unknown(services, &s.contents) {
            Some(j) => {
                proof {
                    lemma_first_ref_error_stops(services@, i as int + 1);
                    lemma_validate_means_resolved(services@);
                }
                return Err(ComposeError::UnknownMember { service: i, index: j });
            },
            None => {},
        }
        match find_unknown(services, &s.bundles) {
            Some(j) => {
                proof {
                    lemma_first_ref_error_stops(services@, i as int + 1);
                    lemma_validate_means_resolved(services@);
                }
                return Err(ComposeError::UnknownBundle { service: i, index: j });
            },
            None => {},
        }
        i += 1;
    }
    proof {
        lemma_validate_means_resolved(services@);
    }
    Ok(())
}

/// Once an error is found among the first `n`, it stays the first.
proof fn lemma_first_ref_error_stops(all: Seq<Service>, n: int)
    requires
        0 <= n <= all.len(),
        first_ref_error(all, n) is Some,
    ensures
        first_ref_error(all, all.len() as int) == first_ref_error(all, n),
    decreases all.len() - n,
{
    if n < all.len() {
        lemma_first_ref_error_stops(all, n + 1);
    }
}


// ---------------------------------------------------------------------------
// constraints checked before anything is emitted

/// What is wrong with the `ready`/`log` settings of service `i`, if anything.
pub open spec fn precheck_error(all: Seq<Service>, i: int) -> Option<ComposeError> {
    let s = all[i];
    if s.ready is Some && s.kind@ != "longrun"@ {
        Some(ComposeError::ReadyNotLongrun { service: i as usize })
    } else if s.ready is Some && s.run is Some {
        Some(ComposeError::ReadyWithRun { service: i as usize })
    } else if s.log && s.kind@ != "longrun"@ {
        Some(ComposeError::LogNotLongrun { service: i as usize })
    } else if s.log && declared(all, s.name@ + "-log"@) {
        Some(ComposeError::LogNameTaken { service: i as usize })
    } else {
        None
    }
}

pub open spec fn first_precheck_error(all: Seq<Service>, n: int) -> Option<ComposeError>
    decreases n,
{
    if n <= 0 {
        None
    } else {
        match first_precheck_error(all, n - 1) {
            Some(e) => Some(e),
            None => precheck_error(all, n - 1),
        }
    }
}

proof fn lemma_first_precheck_stops(all: Seq<Service>, n: int)
    requires
        0 <= n <= all.len(),
        first_precheck_error(all, n) is Some,
    ensures
        first_precheck_error(all, all.len() as int) == first_precheck_error(all, n),
    decreases all.len() - n,
{
    if n < all.len() {
        lemma_first_precheck_stops(all, n + 1);
    }
}

fn precheck(services: &Vec<Service>) -> (r: Option<ComposeError>)
    ensures
        r == first_precheck_error(services@, services@.len() as int),
{
    let mut i: usize = 0;
    while i < services.len()
        invariant
            i <= services.len(),
            first_precheck_error(services@, i as int) is None,
        decreases services.len() - i,
    {
        let s = &services[i];
        let longrun = s.is_longrun();
        let mut err: Option<ComposeError> = None;
        if s.ready.is_some() && !longrun {
            err = Some(ComposeError::ReadyNotLongrun { service: i });
        } else if s.ready.is_some() && s.run.is_some() {
            err = Some(ComposeError::ReadyWithRun { service: i });
        } else if s.log && !longrun {
            err = Some(ComposeError::LogNotLongrun { service: i });
        } else if s.log && is_declared(services, concat(s.name.as_str(), "-log").as_str()) {
            err = Some(ComposeError::LogNameTaken { service: i });
        }
        assert(err == precheck_error(services@, i as int));
        if err.is_some() {
            proof {
                lemma_first_precheck_stops(services@, i + 1);
            }
            return err;
        }
        i += 1;
    }
    None
}

// ---------------------------------------------------------------------------
// the files of one service

/// A script body that ends in a newline.
pub open spec fn ensure_nl(x: Seq<char>) -> Seq<char> {
    if x.len() > 0 && x.last() == '\n' {
        x
    } else {
        x.push('\n')
    }
}

fn ensure_nl_exec(x: String) -> (r: String)
    ensures
        r@ == ensure_nl(x@),
{
    let v = crate::text::chars_of(x.as_str());
    let mut x = x;
    if !(v.len() > 0 && v[v.len() - 1] == '\n') {
        push_char(&mut x, '\n');
    }
    x
}

/// Each setup line followed by a newline.
pub open spec fn setup_text(ls: Seq<Seq<char>>) -> Seq<char>
    decreases ls.len(),
{
    if ls.len() == 0 {
        Seq::<char>::empty()
    } else {
        setup_text(ls.drop_last()) + ls.last() + seq!['\n']
    }
}

/// The daemon command, with the privilege drop when a user is named.
pub open spec fn daemon(s: Service, exec: Seq<char>) -> Seq<char> {
    match s.user {
        Some(u) => if u@.len() > 0 {
            "s6-setuidgid "@ + u@ + seq![' '] + exec
        } else {
            exec
        },
        None => exec,
    }
}

/// The `run` script of a longrun: the raw `run` if given (ending in a
/// newline), else a shell script running the setup lines then exec'ing the
/// daemon; `None` when neither `run` nor `exec` is given.
pub open spec fn run_body(s: Service) -> Option<Seq<char>> {
    match s.run {
        Some(raw) => Some(ensure_nl(raw@)),
        None => match s.exec_cmd {
            None => None,
            Some(e) => Some(
                "#!/bin/sh\n"@ + setup_text(str_views(s.setup@)) + (if s.ready is Some {
                    "exec s6-notifyoncheck -t 1500 -w 250 -T 30000 "@
                } else {
                    "exec "@
                }) + daemon(s, e@) + (if s.log {
                    " 2>&1"@
                } else {
                    Seq::<char>::empty()
                }) + seq!['\n'],
            ),
        },
    }
}

fn run_body_exec(s: &Service) -> (r: Option<String>)
    ensures
        r matches Some(b) ==> run_body(*s) == Some(b@),
        r is None ==> run_body(*s) is None,
{
    match &s.run {
        Some(raw) => Some(ensure_nl_exec(raw.clone())),
        None => match &s.exec_cmd {
            None => None,
            Some(e) => {
                let mut b = String::from_str("#!/bin/sh\n");
                let mut i: usize = 0;
                while i < s.setup.len()
                    invariant
                        i <= s.setup.len(),
                        b@ == "#!/bin/sh\n"@ + setup_text(str_views(s.setup@).take(i as int)),
                    decreases s.setup.len() - i,
                {
                    assert(str_views(s.setup@).take(i + 1).drop_last() =~= str_views(s.setup@).take(i as int));
                    b.append(s.setup[i].as_str());
                    push_char(&mut b, '\n');
                    i += 1;
                }
                assert(str_views(s.setup@).take(s.setup.len() as int) =~= str_views(s.setup@));
                if s.ready.is_some() {
                    b.append("exec s6-notifyoncheck -t 1500 -w 250 -T 30000 ");
                } else {
                    b.append("exec ");
                }
                match &s.user {
                    Some(u) => {
                        if !u.as_str().is_empty() {
                            b.append("s6-setuidgid ");
                            b.append(u.as_str());
                            push_char(&mut b, ' ');
                        }
                    },
                    None => {},
                }
                b.append(e.as_str());
                if s.log {
                    b.append(" 2>&1");
                }
                push_char(&mut b, '\n');
                Some(b)
            },
        },
    }
}

/// Why a `ready` spec gives no check script.
#[derive(Clone, Copy, Debug, PartialEq, Eq, Structural)]
pub enum ReadyProblem {
    NoColon,
    UnknownKind,
}

/// The `data/check` probe for a `ready = "<kind>:<arg>"` spec.
pub open spec fn check_script(spec: Seq<char>) -> Result<Seq<char>, ReadyProblem> {
    match crate::text::split_once(spec, ':') {
        None => Err(ReadyProblem::NoColon),
        Some(p) => if p.0 == "dbus"@ {
            Ok(
                "#!/bin/sh\n"@
                    + "dbus-send --system --print-reply --dest=org.freedesktop.DBus /org/freedesktop/DBus org.freedesktop.DBus.NameHasOwner string:"@
                    + p.1 + " 2>/dev/null | grep -q true"@ + seq!['\n'],
            )
        } else if p.0 == "path"@ {
            Ok("#!/bin/sh\n"@ + "test -e "@ + p.1 + seq!['\n'])
        } else if p.0 == "exec"@ {
            Ok("#!/bin/sh\n"@ + p.1 + seq!['\n'])
        } else {
            Err(ReadyProblem::UnknownKind)
        },
    }
}

/// Builds the `data/check` probe for a `ready` spec.
pub fn ready_check_script(spec: &str) -> (r: Result<String, ReadyProblem>)
    ensures
        match r {
            Ok(c) => check_script(spec@) == Ok::<Seq<char>, ReadyProblem>(c@),
            Err(ReadyProblem::NoColon) => check_script(spec@) == Err::<Seq<char>, ReadyProblem>(
                ReadyProblem::NoColon,
            ),
            Err(ReadyProblem::UnknownKind) => check_script(spec@) == Err::<Seq<char>, ReadyProblem>(
                ReadyProblem::UnknownKind,
            ),
        },
{
    match crate::text::split_once_str(spec, ':') {
        None => Err(ReadyProblem::NoColon),
        Some((kind, arg)) => {
            let mut c = String::from_str("#!/bin/sh\n");
            if str_eq(kind.as_str(), "dbus") {
                c.append(
                    "dbus-send --system --print-reply --dest=org.freedesktop.DBus /org/freedesktop/DBus org.freedesktop.DBus.NameHasOwner string:",
                );
                c.append(arg.as_str());
                c.append(" 2>/dev/null | grep -q true");
            } else if str_eq(kind.as_str(), "path") {
                c.append("test -e ");
                c.append(arg.as_str());
            } else if str_eq(kind.as_str(), "exec") {
                c.append(arg.as_str());
            } else {
                return Err(ReadyProblem::UnknownKind);
            }
            let ghost pre = c@;
            push_char(&mut c, '\n');
            assert(crate::text::split_once(spec@, ':') == Some((kind@, arg@)));
            assert(c@ =~= pre + seq!['\n']);
            assert(check_script(spec@) == Ok::<Seq<char>, ReadyProblem>(c@));
            Ok(c)
        },
    }
}


pub type FileV = (Seq<char>, Seq<char>, bool);

/// The `finish` script, if one is declared.
pub open spec fn finish_files(s: Service) -> Seq<FileV> {
    match s.finish {
        Some(f) => seq![(at(s.name@, "finish"@), ensure_nl("#!/bin/sh\n"@ + f@), true)],
        None => Seq::<FileV>::empty(),
    }
}

/// The `down` file of a oneshot, if one is declared.
pub open spec fn down_files(s: Service) -> Seq<FileV> {
    match s.down {
        Some(d) => seq![(at(s.name@, "down"@), render_spec(d), false)],
        None => Seq::<FileV>::empty(),
    }
}

/// The `run` script of the generated `<name>-log` consumer.
pub open spec fn logger_run(n: Seq<char>) -> Seq<char> {
    "#!/bin/sh\nmkdir -p /var/log/"@ + n + "\nexec s6-log -b n10 s1000000 T /var/log/"@ + n + seq![
        '\n',
    ]
}

/// The `dependencies` file: the needed services sorted, each once.
pub open spec fn deps_files(s: Service) -> Seq<FileV> {
    if s.needs@.len() > 0 && s.kind@ != "bundle"@ {
        seq![
            (
                at(s.name@, "dependencies"@),
                join(sorted_set(str_views(s.needs@)), seq!['\n']) + seq!['\n'],
                false,
            ),
        ]
    } else {
        Seq::<FileV>::empty()
    }
}

/// For a logging longrun, its `producer-for` and the files of its
/// `<name>-log` consumer.
pub open spec fn log_files(s: Service) -> Seq<FileV> {
    let n = s.name@;
    if s.log && s.kind@ == "longrun"@ {
        seq![
            (at(n, "producer-for"@), n + "-log\n"@, false),
            (at(n + "-log"@, "type"@), "longrun\n"@, false),
            (at(n + "-log"@, "consumer-for"@), n.push('\n'), false),
            (at(n + "-log"@, "run"@), logger_run(n), true),
        ]
    } else {
        Seq::<FileV>::empty()
    }
}

pub open spec fn tail_files(s: Service) -> Seq<FileV> {
    deps_files(s) + log_files(s)
}

/// The files of service `i`, in the order they are written, and the error
/// that stops the weaving there, if any.
pub open spec fn service_files(all: Seq<Service>, i: int) -> (Seq<FileV>, Option<ComposeError>) {
    let s = all[i];
    let n = s.name@;
    let t = seq![(at(n, "type"@), s.kind@.push('\n'), false)];
    if s.kind@ == "longrun"@ {
        match run_body(s) {
            None => (t, Some(ComposeError::MissingExec { service: i as usize })),
            Some(body) => {
                let f1 = t.push((at(n, "run"@), body, true));
                match s.ready {
                    None => (f1 + finish_files(s) + tail_files(s), None),
                    Some(r) => {
                        let f2 = f1.push((at(n, "notification-fd"@), "3\n"@, false));
                        match check_script(r@) {
                            Err(ReadyProblem::NoColon) => (
                                f2,
                                Some(ComposeError::BadReadySpec { service: i as usize }),
                            ),
                            Err(ReadyProblem::UnknownKind) => (
                                f2,
                                Some(ComposeError::UnknownReadyKind { service: i as usize }),
                            ),
                            Ok(c) => (
                                f2.push((at(at(n, "data"@), "check"@), c, true)) + finish_files(s)
                                    + tail_files(s),
                                None,
                            ),
                        }
                    },
                }
            },
        }
    } else if s.kind@ == "oneshot"@ {
        match s.up {
            None => (t, Some(ComposeError::MissingUp { service: i as usize })),
            Some(u) => (
                t.push((at(n, "up"@), render_spec(u), false)) + down_files(s) + tail_files(s),
                None,
            ),
        }
    } else if s.kind@ == "bundle"@ {
        (t + tail_files(s), None)
    } else {
        (t, Some(ComposeError::UnknownKind { service: i as usize }))
    }
}

fn push_file(files: &mut Vec<OutFile>, path: String, content: String, executable: bool)
    ensures
        file_views(final(files)@) == file_views(old(files)@).push((path@, content@, executable)),
{
    let ghost before = file_views(files@);
    files.push(out(path, content, executable));
    assert(file_views(files@) =~= before.push((path@, content@, executable)));
}

fn tail_files_exec(s: &Service, files: &mut Vec<OutFile>)
    ensures
        file_views(final(files)@) == file_views(old(files)@) + tail_files(*s),
{
    let ghost before = file_views(files@);
    let n = s.name.as_str();
    if s.needs.len() > 0 && !s.is_bundle() {
        let needs = s.needs.clone();
        assert(str_views(needs@) =~= str_views(s.needs@));
        let deps = sort_dedup(needs);
        let mut content = join_strings(&deps, "\n");
        proof {
            reveal_strlit("\n");
            assert("\n"@ =~= seq!['\n']);
        }
        let ghost pre = content@;
        assert(pre == join(sorted_set(str_views(s.needs@)), seq!['\n']));
        push_char(&mut content, '\n');
        assert(content@ =~= pre + seq!['\n']);
        push_file(files, at_exec(n, "dependencies"), content, false);
    }
    let ghost mid = file_views(files@);
    assert(mid =~= before + deps_files(*s));
    if s.log && s.is_longrun() {
        let logname = concat(n, "-log");
        push_file(files, at_exec(n, "producer-for"), concat(n, "-log\n"), false);
        push_file(files, at_exec(logname.as_str(), "type"), String::from_str("longrun\n"), false);
        let mut cf = n.to_owned();
        push_char(&mut cf, '\n');
        push_file(files, at_exec(logname.as_str(), "consumer-for"), cf, false);
        let mut run = concat("#!/bin/sh\nmkdir -p /var/log/", n);
        run.append("\nexec s6-log -b n10 s1000000 T /var/log/");
        run.append(n);
        let ghost pre = run@;
        push_char(&mut run, '\n');
        assert(run@ =~= logger_run(n@));
        push_file(files, at_exec(logname.as_str(), "run"), run, true);
    }
    assert(file_views(files@) =~= mid + log_files(*s));
    assert(file_views(files@) =~= before + tail_files(*s));
}

/// Appends the files of service `i`; reports the error that stops the
/// weaving there, if any.
fn service_files_exec(all: &Vec<Service>, i: usize, files: &mut Vec<OutFile>) -> (r: Option<
    ComposeError,
>)
    requires
        i < all.len(),
    ensures
        file_views(final(files)@) == file_views(old(files)@) + service_files(all@, i as int).0,
        r == service_files(all@, i as int).1,
{
    let ghost before = file_views(files@);
    let s = &all[i];
    let n = s.name.as_str();
    let mut ty = s.kind.clone();
    push_char(&mut ty, '\n');
    push_file(files, at_exec(n, "type"), ty, false);
    if s.is_longrun() {
        match run_body_exec(s) {
            None => {
                return Some(ComposeError::MissingExec { service: i });
            },
            Some(body) => {
                push_file(files, at_exec(n, "run"), body, true);
                match &s.ready {
                    None => {},
                    Some(spec) => {
                        push_file(
                            files,
                            at_exec(n, "notification-fd"),
                            String::from_str("3\n"),
                            false,
                        );
                        match ready_check_script(spec.as_str()) {
                            Err(ReadyProblem::NoColon) => {
                                return Some(ComposeError::BadReadySpec { service: i });
                            },
                            Err(ReadyProblem::UnknownKind) => {
                                return Some(ComposeError::UnknownReadyKind { service: i });
                            },
                            Ok(c) => {
                                let data = at_exec(n, "data");
                                push_file(files, at_exec(data.as_str(), "check"), c, true);
                            },
                        }
                    },
                }
                match &s.finish {
                    Some(f) => {
                        let body = ensure_nl_exec(concat("#!/bin/sh\n", f.as_str()));
                        push_file(files, at_exec(n, "finish"), body, true);
                    },
                    None => {},
                }
            },
        }
    } else if s.is_oneshot() {
        match &s.up {
            None => {
                return Some(ComposeError::MissingUp { service: i });
            },
            Some(u) => {
                push_file(files, at_exec(n, "up"), u.render(), false);
                match &s.down {
                    Some(d) => {
                        push_file(files, at_exec(n, "down"), d.render(), false);
                    },
                    None => {},
                }
            },
        }
    } else if s.is_bundle() {
    } else {
        return Some(ComposeError::UnknownKind { service: i });
    }
    let ghost mid = file_views(files@);
    tail_files_exec(s, files);
    assert(file_views(files@) =~= before + service_files(all@, i as int).0);
    None
}


// ---------------------------------------------------------------------------
// bundles

/// Declared services `k < n` that list bundle `b`: their names, and for
/// those with a logger, the logger's name.
pub open spec fn joined_members(all: Seq<Service>, b: Seq<char>, n: int) -> Set<Seq<char>> {
    Set::new(
        |y: Seq<char>|
            exists|k: int|
                0 <= k < n && #[trigger] str_views(all[k].bundles@).contains(b) && (y == all[k].name@
                    || (all[k].log && y == all[k].name@ + "-log"@)),
    )
}

/// The members of bundle service `i`: its explicit `contents`, every service
/// that lists it in `bundles`, and the logger of each such service that logs.
pub open spec fn bundle_members(all: Seq<Service>, i: int) -> Set<Seq<char>> {
    str_views(all[i].contents@).to_set().union(joined_members(all, all[i].name@, all.len() as int))
}

/// The `contents` file of bundle service `i`, or the error if it has no
/// members; nothing for other services.
pub open spec fn bundle_files(all: Seq<Service>, i: int) -> (Seq<FileV>, Option<ComposeError>) {
    let s = all[i];
    if s.kind@ != "bundle"@ {
        (Seq::<FileV>::empty(), None)
    } else {
        let m = sorted_of_set(bundle_members(all, i));
        if m.len() == 0 {
            (Seq::<FileV>::empty(), Some(ComposeError::EmptyBundle { service: i as usize }))
        } else {
            (seq![(at(s.name@, "contents"@), join(m, seq!['\n']) + seq!['\n'], false)], None)
        }
    }
}

fn list_has(v: &Vec<String>, x: &str) -> (r: bool)
    ensures
        r == str_views(v@).contains(x@),
{
    let mut j: usize = 0;
    while j < v.len()
        invariant
            j <= v.len(),
            forall|k: int| 0 <= k < j ==> v@[k]@ != x@,
        decreases v.len() - j,
    {
        if str_eq(v[j].as_str(), x) {
            assert(str_views(v@)[j as int] == x@);
            return true;
        }
        j += 1;
    }
    assert forall|k: int| 0 <= k < str_views(v@).len() implies str_views(v@)[k] != x@ by {
        assert(str_views(v@)[k] == v@[k]@);
    }
    false
}

/// The members of bundle service `i`, unsorted, possibly repeated.
fn collect_members(all: &Vec<Service>, i: usize) -> (r: Vec<String>)
    requires
        i < all.len(),
    ensures
        str_views(r@).to_set() == bundle_members(all@, i as int),
{
    let name = all[i].name.as_str();
    let mut v = all[i].contents.clone();
    assert(str_views(v@) =~= str_views(all@[i as int].contents@));
    let ghost base = str_views(all@[i as int].contents@).to_set();
    let mut k: usize = 0;
    while k < all.len()
        invariant
            i < all.len(),
            name@ == all@[i as int].name@,
            base == str_views(all@[i as int].contents@).to_set(),
            k <= all.len(),
            str_views(v@).to_set() == base.union(joined_members(all@, name@, k as int)),
        decreases all.len() - k,
    {
        let ghost old_set = str_views(v@).to_set();
        let t = &all[k];
        if list_has(&t.bundles, name) {
            let ghost v0 = str_views(v@);
            v.push(t.name.clone());
            assert(str_views(v@) =~= v0.push(t.name@));
            proof { v0.lemma_push_to_set_commute(t.name@); }
            if t.log {
                let ghost v1 = str_views(v@);
                let ln = concat(t.name.as_str(), "-log");
                v.push(ln);
                assert(str_views(v@) =~= v1.push(t.name@ + "-log"@));
                proof { v1.lemma_push_to_set_commute(t.name@ + "-log"@); }
            }
        }
        assert(str_views(v@).to_set() =~= base.union(joined_members(all@, name@, k + 1))) by {
            assert forall|y: Seq<char>| #[trigger] joined_members(all@, name@, k + 1).contains(y) implies
                str_views(v@).to_set().contains(y) by {
                let kk = choose|kk: int|
                    0 <= kk < k + 1 && #[trigger] str_views(all@[kk].bundles@).contains(name@) && (y
                        == all@[kk].name@ || (all@[kk].log && y == all@[kk].name@ + "-log"@));
                if kk < k {
                    assert(joined_members(all@, name@, k as int).contains(y));
                }
            }
            assert forall|y: Seq<char>| #[trigger] str_views(v@).to_set().contains(y) && !base.contains(y)
                implies joined_members(all@, name@, k + 1).contains(y) by {
                if old_set.contains(y) {
                    assert(joined_members(all@, name@, k as int).contains(y));
                    let kk = choose|kk: int|
                        0 <= kk < k && #[trigger] str_views(all@[kk].bundles@).contains(name@) && (y
                            == all@[kk].name@ || (all@[kk].log && y == all@[kk].name@ + "-log"@));
                    assert(0 <= kk < k + 1);
                } else {
                    assert(0 <= k < k + 1 && str_views(all@[k as int].bundles@).contains(name@));
                }
            }
        }
        k += 1;
    }
    v
}

fn bundle_files_exec(all: &Vec<Service>, i: usize, files: &mut Vec<OutFile>) -> (r: Option<
    ComposeError,
>)
    requires
        i < all.len(),
    ensures
        file_views(final(files)@) == file_views(old(files)@) + bundle_files(all@, i as int).0,
        r == bundle_files(all@, i as int).1,
{
    let ghost before = file_views(files@);
    if !all[i].is_bundle() {
        assert(file_views(files@) =~= before + bundle_files(all@, i as int).0);
        return None;
    }
    let members = collect_members(all, i);
    let sorted = sort_dedup(members);
    assert(str_views(sorted@) == sorted_of_set(bundle_members(all@, i as int)));
    if sorted.len() == 0 {
        assert(file_views(files@) =~= before + bundle_files(all@, i as int).0);
        return Some(ComposeError::EmptyBundle { service: i });
    }
    let mut content = join_strings(&sorted, "\n");
    proof {
        reveal_strlit("\n");
        assert("\n"@ =~= seq!['\n']);
    }
    let ghost pre = content@;
    push_char(&mut content, '\n');
    assert(content@ =~= pre + seq!['\n']);
    push_file(files, at_exec(all[i].name.as_str(), "contents"), content, false);
    assert(file_views(files@) =~= before + bundle_files(all@, i as int).0);
    None
}

// ---------------------------------------------------------------------------
// the whole tree

/// The files of the first `n` services, stopping at the first error.
pub open spec fn gen_services(all: Seq<Service>, n: int) -> (Seq<FileV>, Option<ComposeError>)
    decreases n,
{
    if n <= 0 {
        (Seq::<FileV>::empty(), None)
    } else {
        let r = gen_services(all, n - 1);
        if r.1 is Some {
            r
        } else {
            let o = service_files(all, n - 1);
            (r.0 + o.0, o.1)
        }
    }
}

/// The bundle `contents` files of the first `n` services, stopping at the
/// first error.
pub open spec fn gen_bundles(all: Seq<Service>, n: int) -> (Seq<FileV>, Option<ComposeError>)
    decreases n,
{
    if n <= 0 {
        (Seq::<FileV>::empty(), None)
    } else {
        let r = gen_bundles(all, n - 1);
        if r.1 is Some {
            r
        } else {
            let o = bundle_files(all, n - 1);
            (r.0 + o.0, o.1)
        }
    }
}

/// The s6-rc source tree of a set of declarations: the files written, in
/// order, and whether the weaving succeeded. Before anything is written the
/// `ready`/`log` constraints are checked, then every reference (nothing is
/// written on failure); then each service's directory is written in order,
/// then each bundle's `contents`.
pub open spec fn generate_spec(all: Seq<Service>) -> (Seq<FileV>, Result<(), ComposeError>) {
    let n = all.len() as int;
    match first_precheck_error(all, n) {
        Some(e) => (Seq::<FileV>::empty(), Err(e)),
        None => match first_ref_error(all, n) {
            Some(e) => (Seq::<FileV>::empty(), Err(e)),
            None => {
                let a = gen_services(all, n);
                match a.1 {
                    Some(e) => (a.0, Err(e)),
                    None => {
                        let b = gen_bundles(all, n);
                        match b.1 {
                            Some(e) => (a.0 + b.0, Err(e)),
                            None => (a.0 + b.0, Ok(())),
                        }
                    },
                }
            },
        },
    }
}

proof fn lemma_gen_services_has(all: Seq<Service>, n: int, i: int)
    requires
        0 <= i < n <= all.len(),
        gen_services(all, n).1 is None,
    ensures
        service_files(all, i).1 is None,
        forall|f: FileV| #[trigger] service_files(all, i).0.contains(f) ==> gen_services(all, n).0.contains(f),
    decreases n,
{
    let r = gen_services(all, n - 1);
    if r.1 is Some {
        assert(gen_services(all, n) == r);
    } else {
        if i < n - 1 {
            lemma_gen_services_has(all, n - 1, i);
            assert forall|f: FileV| #[trigger] service_files(all, i).0.contains(f) implies gen_services(all, n).0.contains(f) by {
                let p = choose|p: int| 0 <= p < r.0.len() && r.0[p] == f;
                assert(gen_services(all, n).0[p] == f);
            }
        } else {
            let o = service_files(all, i);
            assert forall|f: FileV| #[trigger] o.0.contains(f) implies gen_services(all, n).0.contains(f) by {
                let p = choose|p: int| 0 <= p < o.0.len() && o.0[p] == f;
                assert(gen_services(all, n).0[r.0.len() + p] == f);
            }
        }
    }
}

/// One declaration in, all the supervision glue out: when the tree is woven
/// without error, every service has its `type` file, and every longrun its
/// executable `run` script (the raw `run`, or the script that execs the
/// daemon).
pub proof fn lemma_every_service_woven(all: Seq<Service>, i: int)
    requires
        0 <= i < all.len(),
        generate_spec(all).1 is Ok,
    ensures
        generate_spec(all).0.contains((at(all[i].name@, "type"@), all[i].kind@.push('\n'), false)),
        all[i].kind@ == "longrun"@ ==> run_body(all[i]) is Some && generate_spec(all).0.contains(
            (at(all[i].name@, "run"@), run_body(all[i])->0, true),
        ),
{
    let n = all.len() as int;
    let a = gen_services(all, n);
    let b = gen_bundles(all, n);
    assert(first_precheck_error(all, n) is None);
    assert(first_ref_error(all, n) is None);
    assert(a.1 is None);
    assert(b.1 is None);
    assert(generate_spec(all).0 == a.0 + b.0);
    lemma_gen_services_has(all, n, i);
    let o = service_files(all, i);
    let t = (at(all[i].name@, "type"@), all[i].kind@.push('\n'), false);
    assert(o.0[0] == t);
    assert(o.0.contains(t));
    let p = choose|p: int| 0 <= p < a.0.len() && a.0[p] == t;
    assert((a.0 + b.0)[p] == t);
    if all[i].kind@ == "longrun"@ {
        let rf = (at(all[i].name@, "run"@), run_body(all[i])->0, true);
        assert(o.0[1] == rf);
        assert(o.0.contains(rf));
        let q = choose|q: int| 0 <= q < a.0.len() && a.0[q] == rf;
        assert((a.0 + b.0)[q] == rf);
    }
}

proof fn lemma_tail_has_deps(pre: Seq<FileV>, post: Seq<FileV>, s: Service)
    requires
        deps_files(s).len() > 0,
    ensures
        (pre + tail_files(s) + post).contains(deps_files(s)[0]),
        (pre + tail_files(s)).contains(deps_files(s)[0]),
{
    let x = deps_files(s)[0];
    assert((pre + tail_files(s) + post)[pre.len() as int] == x);
    assert((pre + tail_files(s))[pre.len() as int] == x);
}

/// Ordering is kept: when the tree is woven without error, every service
/// that is not a bundle (a oneshot as well as a longrun) and needs others
/// gets a `<name>/dependencies` file that lists exactly the names it needs,
/// each once, in increasing order, one per line.
pub proof fn lemma_needs_become_dependencies(all: Seq<Service>, i: int)
    requires
        0 <= i < all.len(),
        generate_spec(all).1 is Ok,
        all[i].kind@ != "bundle"@,
        all[i].needs@.len() > 0,
    ensures
        exists|m: Seq<Seq<char>>|
            strictly_sorted(m) && m.to_set() == str_views(all[i].needs@).to_set()
                && generate_spec(all).0.contains(
                (at(all[i].name@, "dependencies"@), join(m, seq!['\n']) + seq!['\n'], false),
            ),
{
    let n = all.len() as int;
    let a = gen_services(all, n);
    let b = gen_bundles(all, n);
    let s = all[i];
    assert(first_precheck_error(all, n) is None);
    assert(first_ref_error(all, n) is None);
    assert(a.1 is None);
    assert(b.1 is None);
    assert(generate_spec(all).0 == a.0 + b.0);
    lemma_gen_services_has(all, n, i);
    let m = sorted_set(str_views(s.needs@));
    lemma_sorted_set(str_views(s.needs@));
    let f = (at(s.name@, "dependencies"@), join(m, seq!['\n']) + seq!['\n'], false);
    assert(deps_files(s).len() == 1 && deps_files(s)[0] == f);
    let o = service_files(all, i);
    let nm = s.name@;
    let t = seq![(at(nm, "type"@), s.kind@.push('\n'), false)];
    if s.kind@ == "longrun"@ {
        let body = run_body(s)->0;
        let f1 = t.push((at(nm, "run"@), body, true));
        match s.ready {
            None => {
                lemma_tail_has_deps(f1 + finish_files(s), Seq::empty(), s);
            },
            Some(r) => {
                let f2 = f1.push((at(nm, "notification-fd"@), "3\n"@, false));
                let c = check_script(r@)->Ok_0;
                lemma_tail_has_deps(f2.push((at(at(nm, "data"@), "check"@), c, true)) + finish_files(s), Seq::empty(), s);
            },
        }
    } else if s.kind@ == "oneshot"@ {
        let u = s.up->0;
        lemma_tail_has_deps(t.push((at(nm, "up"@), render_spec(u), false)) + down_files(s), Seq::empty(), s);
    }
    assert(o.0.contains(f));
    let p = choose|p: int| 0 <= p < a.0.len() && a.0[p] == f;
    assert((a.0 + b.0)[p] == f);
}

/// A bundle orders nothing: the step that writes its directory writes only
/// its `type` file, whatever it needs (its members are written with the
/// bundles' `contents` afterwards).
pub proof fn lemma_bundle_writes_only_type(all: Seq<Service>, i: int)
    requires
        0 <= i < all.len(),
        all[i].kind@ == "bundle"@,
    ensures
        service_files(all, i) == (seq![(at(all[i].name@, "type"@), "bundle\n"@, false)], None::<ComposeError>),
{
    reveal_strlit("longrun");
    reveal_strlit("oneshot");
    reveal_strlit("bundle");
    reveal_strlit("bundle\n");
    let s = all[i];
    assert(s.kind@[0] != "longrun"@[0]);
    assert(s.kind@[0] != "oneshot"@[0]);
    assert(s.kind@ != "longrun"@);
    assert(s.kind@ != "oneshot"@);
    assert(deps_files(s) == Seq::<FileV>::empty());
    assert(log_files(s) == Seq::<FileV>::empty());
    assert(s.kind@.push('\n') =~= "bundle\n"@);
    assert(service_files(all, i).0 =~= seq![(at(s.name@, "type"@), "bundle\n"@, false)]);
}

/// Typos are caught before anything is written: when a name in `needs`,
/// `contents` or `bundles` is not a declared service, the weaving fails and
/// writes no file; when it succeeds, every reference resolves.
pub proof fn lemma_references_checked_first(all: Seq<Service>)
    ensures
        !refs_resolve(all) ==> generate_spec(all).0.len() == 0 && generate_spec(all).1 is Err,
        generate_spec(all).1 is Ok ==> refs_resolve(all),
{
    lemma_validate_means_resolved(all);
}

/// The woven tree: the files to write, in order, and the outcome. On an
/// error, the files are those written before it.
pub struct Generated {
    pub files: Vec<OutFile>,
    pub result: Result<(), ComposeError>,
}

/// Generate a complete s6-rc source tree from a set of service declarations.
pub fn generate(services: &Vec<Service>) -> (g: Generated)
    ensures
        file_views(g.files@) == generate_spec(services@).0,
        g.result == generate_spec(services@).1,
        g.result is Ok ==> refs_resolve(services@),
{
    let mut files: Vec<OutFile> = Vec::new();
    match precheck(services) {
        Some(e) => {
            assert(file_views(files@) =~= Seq::<FileV>::empty());
            return Generated { files, result: Err(e) };
        },
        None => {},
    }
    match validate(services) {
        Err(e) => {
            assert(file_views(files@) =~= Seq::<FileV>::empty());
            return Generated { files, result: Err(e) };
        },
        Ok(()) => {},
    }
    let mut i: usize = 0;
    while i < services.len()
        invariant
            i <= services.len(),
            first_precheck_error(services@, services@.len() as int) is None,
            first_ref_error(services@, services@.len() as int) is None,
            refs_resolve(services@),
            gen_services(services@, i as int) == (file_views(files@), None::<ComposeError>),
        decreases services.len() - i,
    {
        let ghost before = file_views(files@);
        let e = service_files_exec(services, i, &mut files);
        if e.is_some() {
            proof {
                lemma_gen_services_stops(services@, i + 1);
            }
            return Generated { files, result: Err(e.unwrap()) };
        }
        i += 1;
    }
    let ghost a = file_views(files@);
    let mut j: usize = 0;
    while j < services.len()
        invariant
            j <= services.len(),
            first_precheck_error(services@, services@.len() as int) is None,
            first_ref_error(services@, services@.len() as int) is None,
            refs_resolve(services@),
            gen_services(services@, services@.len() as int) == (a, None::<ComposeError>),
            a + gen_bundles(services@, j as int).0 == file_views(files@),
            gen_bundles(services@, j as int).1 is None,
        decreases services.len() - j,
    {
        let ghost before = file_views(files@);
        let e = bundle_files_exec(services, j, &mut files);
        assert(a + gen_bundles(services@, j + 1).0 =~= file_views(files@));
        if e.is_some() {
            proof {
                lemma_gen_bundles_stops(services@, j + 1);
            }
            return Generated { files, result: Err(e.unwrap()) };
        }
        j += 1;
    }
    Generated { files, result: Ok(()) }
}

proof fn lemma_gen_services_stops(all: Seq<Service>, n: int)
    requires
        0 <= n <= all.len(),
        gen_services(all, n).1 is Some,
    ensures
        gen_services(all, all.len() as int) == gen_services(all, n),
    decreases all.len() - n,
{
    if n < all.len() {
        lemma_gen_services_stops(all, n + 1);
    }
}

proof fn lemma_gen_bundles_stops(all: Seq<Service>, n: int)
    requires
        0 <= n <= all.len(),
        gen_bundles(all, n).1 is Some,
    ensures
        gen_bundles(all, all.len() as int) == gen_bundles(all, n),
    decreases all.len() - n,
{
    if n < all.len() {
        lemma_gen_bundles_stops(all, n + 1);
    }
}

// ---------------------------------------------------------------------------
// bundle membership

/// The names that the first `n` services add to bundle `b`, as a list.
pub open spec fn joiners(all: Seq<Service>, b: Seq<char>, n: int) -> Seq<Seq<char>>
    decreases n,
{
    if n <= 0 {
        Seq::empty()
    } else {
        let k = n - 1;
        let rest = joiners(all, b, k);
        if str_views(all[k].bundles@).contains(b) {
            if all[k].log {
                rest + seq![all[k].name@, all[k].name@ + "-log"@]
            } else {
                rest + seq![all[k].name@]
            }
        } else {
            rest
        }
    }
}

proof fn lemma_joiners(all: Seq<Service>, b: Seq<char>, n: int)
    requires
        0 <= n <= all.len(),
    ensures
        joiners(all, b, n).to_set() == joined_members(all, b, n),
    decreases n,
{
    if n <= 0 {
        assert(joiners(all, b, n).to_set() =~= joined_members(all, b, n));
    } else {
        let k = n - 1;
        lemma_joiners(all, b, k);
        let j = joiners(all, b, n);
        let rest = joiners(all, b, k);
        assert forall|y: Seq<char>| j.to_set().contains(y) <==> joined_members(all, b, n).contains(y) by {
            if j.to_set().contains(y) {
                let p = choose|p: int| 0 <= p < j.len() && j[p] == y;
                if p < rest.len() {
                    assert(rest[p] == y);
                    assert(rest.to_set().contains(y));
                    assert(joined_members(all, b, k).contains(y));
                    let w = choose|w: int| 0 <= w < k && #[trigger] str_views(all[w].bundles@).contains(b) && (y == all[w].name@ || (all[w].log && y == all[w].name@ + "-log"@));
                    assert(str_views(all[w].bundles@).contains(b));
                } else {
                    assert(str_views(all[k].bundles@).contains(b));
                }
            }
            if joined_members(all, b, n).contains(y) {
                let w = choose|w: int| 0 <= w < n && #[trigger] str_views(all[w].bundles@).contains(b) && (y == all[w].name@ || (all[w].log && y == all[w].name@ + "-log"@));
                if w < k {
                    assert(joined_members(all, b, k).contains(y));
                    assert(rest.to_set().contains(y));
                    let p = choose|p: int| 0 <= p < rest.len() && rest[p] == y;
                    assert(j[p] == y);
                } else if y == all[k].name@ {
                    assert(j[rest.len() as int] == y);
                } else {
                    assert(j[rest.len() as int + 1] == y);
                }
            }
        }
        assert(j.to_set() =~= joined_members(all, b, n));
    }
}

/// The members of a bundle are the elements of a list.
proof fn lemma_bundle_members_listed(all: Seq<Service>, i: int)
    requires
        0 <= i < all.len(),
    ensures
        bundle_members(all, i) == (str_views(all[i].contents@) + joiners(all, all[i].name@, all.len() as int)).to_set(),
{
    let c = str_views(all[i].contents@);
    let j = joiners(all, all[i].name@, all.len() as int);
    lemma_joiners(all, all[i].name@, all.len() as int);
    assert forall|y: Seq<char>| (c + j).to_set().contains(y) <==> bundle_members(all, i).contains(y) by {
        if (c + j).to_set().contains(y) {
            let p = choose|p: int| 0 <= p < (c + j).len() && (c + j)[p] == y;
            if p < c.len() {
                assert(c[p] == y);
                assert(c.to_set().contains(y));
            } else {
                assert(j[p - c.len()] == y);
                assert(j.to_set().contains(y));
            }
        }
        if c.to_set().contains(y) {
            let p = choose|p: int| 0 <= p < c.len() && c[p] == y;
            assert((c + j)[p] == y);
        }
        if j.to_set().contains(y) {
            let p = choose|p: int| 0 <= p < j.len() && j[p] == y;
            assert((c + j)[c.len() + p] == y);
        }
    }
    assert(bundle_members(all, i) =~= (c + j).to_set());
}

proof fn lemma_gen_bundles_has(all: Seq<Service>, n: int, i: int)
    requires
        0 <= i < n <= all.len(),
        gen_bundles(all, n).1 is None,
    ensures
        bundle_files(all, i).1 is None,
        forall|f: FileV| #[trigger] bundle_files(all, i).0.contains(f) ==> gen_bundles(all, n).0.contains(f),
    decreases n,
{
    let r = gen_bundles(all, n - 1);
    if r.1 is Some {
        lemma_gen_bundles_stops_at(all, n - 1);
    } else {
        if i < n - 1 {
            lemma_gen_bundles_has(all, n - 1, i);
            assert forall|f: FileV| #[trigger] bundle_files(all, i).0.contains(f) implies gen_bundles(all, n).0.contains(f) by {
                let p = choose|p: int| 0 <= p < r.0.len() && r.0[p] == f;
                assert(gen_bundles(all, n).0[p] == f);
            }
        } else {
            let o = bundle_files(all, i);
            assert forall|f: FileV| #[trigger] o.0.contains(f) implies gen_bundles(all, n).0.contains(f) by {
                let p = choose|p: int| 0 <= p < o.0.len() && o.0[p] == f;
                assert(gen_bundles(all, n).0[r.0.len() + p] == f);
            }
        }
    }
}

proof fn lemma_gen_bundles_stops_at(all: Seq<Service>, n: int)
    requires
        0 <= n,
        gen_bundles(all, n).1 is Some,
    ensures
        gen_bundles(all, n + 1) == gen_bundles(all, n),
{
}

/// Bundle membership is collected: when the tree is woven without error,
/// the `contents` file of each bundle lists, one per line in increasing
/// order, every member, and among them every service that names the bundle
/// in `bundles` (with its logger, when it logs).
pub proof fn lemma_bundle_membership(all: Seq<Service>, i: int, k: int)
    requires
        0 <= i < all.len(),
        0 <= k < all.len(),
        all[i].kind@ == "bundle"@,
        str_views(all[k].bundles@).contains(all[i].name@),
        generate_spec(all).1 is Ok,
    ensures
        ({
            let m = sorted_of_set(bundle_members(all, i));
            &&& generate_spec(all).0.contains((at(all[i].name@, "contents"@), join(m, seq!['\n']) + seq!['\n'], false))
            &&& strictly_sorted(m)
            &&& m.to_set() == bundle_members(all, i)
            &&& m.contains(all[k].name@)
            &&& all[k].log ==> m.contains(all[k].name@ + "-log"@)
        }),
{
    let n = all.len() as int;
    let list = str_views(all[i].contents@) + joiners(all, all[i].name@, n);
    lemma_bundle_members_listed(all, i);
    lemma_sorted_set(list);
    let m = sorted_of_set(bundle_members(all, i));
    assert(m == sorted_set(list));
    assert(joined_members(all, all[i].name@, n).contains(all[k].name@));
    assert(bundle_members(all, i).contains(all[k].name@));
    assert(m.to_set().contains(all[k].name@));
    if all[k].log {
        assert(joined_members(all, all[i].name@, n).contains(all[k].name@ + "-log"@));
        assert(m.to_set().contains(all[k].name@ + "-log"@));
    }
    assert(first_precheck_error(all, n) is None);
    let a = gen_services(all, n);
    let b = gen_bundles(all, n);
    assert(a.1 is None);
    assert(b.1 is None);
    lemma_gen_bundles_has(all, n, i);
    let f = (at(all[i].name@, "contents"@), join(m, seq!['\n']) + seq!['\n'], false);
    assert(bundle_files(all, i).0.contains(f)) by {
        assert(bundle_files(all, i).0[0] == f);
    }
    let p = choose|p: int| 0 <= p < b.0.len() && b.0[p] == f;
    assert(generate_spec(all).0 == a.0 + b.0);
    assert((a.0 + b.0)[a.0.len() + p] == f);
}

} // verus!
