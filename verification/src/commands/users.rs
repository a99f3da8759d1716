//! The account commands a switch runs for each `[[users]]` entry.
use vstd::prelude::*;
use crate::config::schema::User;
use crate::text::{concat, concat3, join, join_strings, str_views};

verus! {

/// A command line, word by word.
pub open spec fn argv_view(c: Vec<String>) -> Seq<Seq<char>> {
    str_views(c@)
}

pub open spec fn plan_view(p: Seq<Vec<String>>) -> Seq<Seq<Seq<char>>> {
    p.map_values(|c: Vec<String>| argv_view(c))
}

/// `useradd -m -s SHELL [-G g1,g2,...] NAME`.
pub open spec fn useradd(u: User, shell: Seq<char>) -> Seq<Seq<char>> {
    seq!["useradd"@, "-m"@, "-s"@, shell] + (if u.groups@.len() > 0 {
        seq!["-G"@, join(str_views(u.groups@), ","@)]
    } else {
        Seq::empty()
    }) + seq![u.name@]
}

/// `usermod -p HASH NAME` when a password hash is given (an empty one
/// would lock the account).
pub open spec fn set_password(u: User) -> Seq<Seq<Seq<char>>> {
    if u.password_hash@.len() > 0 {
        seq![seq!["usermod"@, "-p"@, u.password_hash@, u.name@]]
    } else {
        Seq::empty()
    }
}

/// Creating an account: `useradd`, then the password.
pub open spec fn create_spec(u: User, shell: Seq<char>) -> Seq<Seq<Seq<char>>> {
    seq![useradd(u, shell)] + set_password(u)
}

/// Handing a new home directory to its owner: `chown -R NAME:NAME /home/NAME`.
pub open spec fn chown_spec(u: User) -> Seq<Seq<char>> {
    seq!["chown"@, "-R"@, u.name@ + ":"@ + u.name@, "/home/"@ + u.name@]
}

/// Updating an account: the shell, each group (added, none removed), then
/// the password.
pub open spec fn update_spec(u: User, shell: Seq<char>) -> Seq<Seq<Seq<char>>> {
    seq![seq!["usermod"@, "-s"@, shell, u.name@]] + u.groups@.map_values(
        |g: String| seq!["usermod"@, "-aG"@, g@, u.name@],
    ) + set_password(u)
}

fn cmd4(a: &str, b: &str, c: &str, d: &str) -> (r: Vec<String>)
    ensures
        str_views(r@) == seq![a@, b@, c@, d@],
{
    let r = vec![a.to_string(), b.to_string(), c.to_string(), d.to_string()];
    assert(str_views(r@) =~= seq![a@, b@, c@, d@]);
    r
}

fn password_cmds(u: &User, out: &mut Vec<Vec<String>>)
    ensures
        plan_view(final(out)@) == plan_view(old(out)@) + set_password(*u),
{
    if !u.password_hash.as_str().is_empty() {
        let c = cmd4("usermod", "-p", u.password_hash.as_str(), u.name.as_str());
        let ghost before = plan_view(out@);
        let ghost cv = str_views(c@);
        out.push(c);
        assert(plan_view(out@) =~= before.push(cv));
        assert(before + set_password(*u) =~= before.push(cv));
    } else {
        assert(plan_view(out@) =~= plan_view(out@) + set_password(*u));
    }
}

/// The commands that create the account of `u` with login shell `shell`.
pub fn create_commands(u: &User, shell: &str) -> (r: Vec<Vec<String>>)
    ensures
        plan_view(r@) == create_spec(*u, shell@),
{
    let mut add = cmd4("useradd", "-m", "-s", shell);
    let ghost head = str_views(add@);
    if u.groups.len() > 0 {
        let g = join_strings(&u.groups, ",");
        add.push(String::from_str("-G"));
        add.push(g);
        assert(str_views(add@) =~= head + seq!["-G"@, join(str_views(u.groups@), ","@)]);
    } else {
        assert(str_views(add@) =~= head + Seq::<Seq<char>>::empty());
    }
    let ghost mid = str_views(add@);
    add.push(u.name.clone());
    assert(str_views(add@) =~= mid.push(u.name@));
    assert(str_views(add@) =~= useradd(*u, shell@));
    let mut r: Vec<Vec<String>> = Vec::new();
    r.push(add);
    assert(plan_view(r@) =~= seq![useradd(*u, shell@)]);
    password_cmds(u, &mut r);
    r
}

/// The command that gives a new account its home directory.
pub fn chown_command(u: &User) -> (r: Vec<String>)
    ensures
        str_views(r@) == chown_spec(*u),
{
    let owner = concat3(u.name.as_str(), ":", u.name.as_str());
    let home = concat("/home/", u.name.as_str());
    let r = vec![String::from_str("chown"), String::from_str("-R"), owner, home];
    assert(str_views(r@) =~= chown_spec(*u));
    r
}

/// The commands that bring the existing account of `u` in line.
pub fn update_commands(u: &User, shell: &str) -> (r: Vec<Vec<String>>)
    ensures
        plan_view(r@) == update_spec(*u, shell@),
{
    let mut r: Vec<Vec<String>> = Vec::new();
    r.push(cmd4("usermod", "-s", shell, u.name.as_str()));
    let ghost first = plan_view(r@);
    let mut i: usize = 0;
    while i < u.groups.len()
        invariant
            i <= u.groups.len(),
            plan_view(r@) == first + u.groups@.take(i as int).map_values(
                |g: String| seq!["usermod"@, "-aG"@, g@, u.name@],
            ),
        decreases u.groups.len() - i,
    {
        let ghost before = plan_view(r@);
        let c = cmd4("usermod", "-aG", u.groups[i].as_str(), u.name.as_str());
        let ghost cv = str_views(c@);
        r.push(c);
        assert(plan_view(r@) =~= before.push(cv));
        assert(plan_view(r@) =~= before.push(seq!["usermod"@, "-aG"@, u.groups@[i as int]@, u.name@]));
        assert(u.groups@.take(i + 1).map_values(|g: String| seq!["usermod"@, "-aG"@, g@, u.name@])
            =~= u.groups@.take(i as int).map_values(|g: String| seq!["usermod"@, "-aG"@, g@, u.name@]).push(
            seq!["usermod"@, "-aG"@, u.groups@[i as int]@, u.name@],
        ));
        i += 1;
    }
    assert(u.groups@.take(u.groups.len() as int) =~= u.groups@);
    let ghost mid = plan_view(r@);
    password_cmds(u, &mut r);
    assert(plan_view(r@) =~= update_spec(*u, shell@));
    r
}

} // verus!
