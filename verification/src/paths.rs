//! Paths on remote machines, as texts.
use crate::output;
use crate::output::decode_lossy;
use crate::shell;
use crate::shell::shell_quote;
use crate::text;
use crate::text::{concat3, ends_with, from_chars, same, split, starts_with, to_chars, trim};
use vstd::prelude::*;

verus! {

// ---------------------------------------------------------------------------
// Tildes
// ---------------------------------------------------------------------------
/// A path that begins with a tilde and a user's name, and goes on behind a slash.
pub open spec fn names_home_of_user(path: Seq<char>) -> bool {
    path.len() > 1 && path[0] == '~' && path[1] != '/' && path.skip(1).contains('/')
}

/// The path begins with somebody's home directory.
pub open spec fn needs_expansion(path: Seq<char>) -> bool {
    path == "~"@ || text::begins(path, "~/"@) || names_home_of_user(path)
}

#[verifier::loop_isolation(false)]
fn is_tilde_user_path(path: &str) -> (r: bool)
    ensures
        r == names_home_of_user(path@),
{
    let v = to_chars(path);
    if v.len() < 2 || v[0] != '~' || v[1] == '/' {
        return false;
    }
    let mut i: usize = 1;
    while i < v.len()
        invariant
            1 <= i <= v.len(),
            v@ == path@,
            forall|j: int| 1 <= j < i ==> #[trigger] v@[j] != '/',
        decreases v.len() - i,
    {
        if v[i] == '/' {
            assert(path@.skip(1)[i - 1] == '/');
            return true;
        }
        i += 1;
    }
    proof {
        if path@.skip(1).contains('/') {
            let j = choose|j: int| 0 <= j < path@.skip(1).len() && path@.skip(1)[j] == '/';
            assert(v@[j + 1] == '/');
        }
    }
    false
}

/// Whether a path begins with somebody's home directory.
pub fn remote_path_needs_expansion(path: &str) -> (r: bool)
    ensures
        r == needs_expansion(path@),
{
    same(path, "~") || starts_with(path, "~/") || is_tilde_user_path(path)
}

/// Whose home directory a path begins with, and what follows behind the slash.
pub open spec fn tilde_parts(path: Seq<char>) -> Option<(Option<Seq<char>>, Seq<char>)> {
    if path.len() == 0 || path[0] != '~' {
        None
    } else if path.len() == 1 {
        Some((None, Seq::empty()))
    } else if path[1] == '/' {
        Some((None, path.skip(2)))
    } else {
        let rest = path.skip(1);
        let n = crate::search::until(rest, '/');
        if n < rest.len() {
            Some((Some(rest.take(n)), rest.skip(n + 1)))
        } else {
            None
        }
    }
}

/// Take a path with a tilde apart.
pub fn split_tilde_path(path: &str) -> (r: Option<(Option<String>, String)>)
    ensures
        match r {
            Some((user, suffix)) => tilde_parts(path@) == Some((text::opt(user), suffix@)),
            None => tilde_parts(path@) is None,
        },
{
    let v = to_chars(path);
    if v.len() == 0 || v[0] != '~' {
        return None;
    }
    if v.len() == 1 {
        let empty = String::new();
        assert(empty@ =~= Seq::<char>::empty());
        return Some((None, empty));
    }
    if v[1] == '/' {
        let rest = vstd::slice::slice_subrange(v.as_slice(), 2, v.len());
        assert(rest@ =~= path@.skip(2));
        return Some((None, from_chars(rest)));
    }
    let rest = vstd::slice::slice_subrange(v.as_slice(), 1, v.len());
    assert(rest@ =~= path@.skip(1));
    let n: usize = crate::search::chars_until(rest, '/');
    if n == rest.len() {
        return None;
    }
    let user = vstd::slice::slice_subrange(rest, 0, n);
    let suffix = vstd::slice::slice_subrange(rest, n + 1, rest.len());
    assert(user@ =~= path@.skip(1).take(n as int));
    assert(suffix@ =~= path@.skip(1).skip(n + 1));
    Some((Some(from_chars(user)), from_chars(suffix)))
}

/// A text without the slashes at its end.
pub open spec fn without_end_slashes(s: Seq<char>) -> Seq<char>
    decreases s.len(),
{
    if s.len() > 0 && s.last() == '/' {
        without_end_slashes(s.drop_last())
    } else {
        s
    }
}

pub fn trim_end_slashes(s: &str) -> (r: String)
    ensures
        r@ == without_end_slashes(s@),
{
    let v = to_chars(s);
    let mut n: usize = v.len();
    assert(v@.take(n as int) =~= s@);
    while n > 0 && v[n - 1] == '/'
        invariant
            n <= v.len(),
            without_end_slashes(s@) == without_end_slashes(v@.take(n as int)),
        decreases n,
    {
        assert(v@.take(n as int).drop_last() =~= v@.take(n - 1));
        n -= 1;
    }
    let head = vstd::slice::slice_subrange(v.as_slice(), 0, n);
    assert(head@ =~= v@.take(n as int));
    from_chars(head)
}

/// A path behind a home directory.
pub open spec fn joined(home: Seq<char>, suffix: Seq<char>) -> Seq<char> {
    if suffix.len() == 0 {
        home
    } else {
        without_end_slashes(home) + "/"@ + suffix
    }
}

pub fn join_remote_path(home: &str, suffix: &str) -> (r: String)
    ensures
        r@ == joined(home@, suffix@),
{
    if suffix.is_empty() {
        home.to_owned()
    } else {
        let head = trim_end_slashes(home);
        concat3(head.as_str(), "/", suffix)
    }
}

/// A copy needs a remote path.
pub fn validate_remote_path(path: &str) -> (r: Result<(), String>)
    ensures
        r is Ok <==> path@.len() > 0,
        r matches Err(e) ==> e@ == "remote_path must not be empty"@,
{
    if path.is_empty() {
        Err("remote_path must not be empty".to_owned())
    } else {
        Ok(())
    }
}

// ---------------------------------------------------------------------------
// Home directories
// ---------------------------------------------------------------------------
/// How a path with a tilde is expanded.
#[derive(Debug)]
pub enum Expansion {
    /// The path needs none.
    Plain(String),
    /// Ask the remote side for the home directory with this command, and put the suffix
    /// behind it.
    Ask { command: String, suffix: String },
    Fail(String),
}

/// The command that prints the home directory of a user.
pub open spec fn user_home_command(user: Seq<char>) -> Seq<char> {
    "getent passwd "@ + shell::quoted(user) + " | cut -d: -f6"@
}

/// The command that prints a home directory: the one of a user, or that of the session.
pub open spec fn home_command(user: Option<Seq<char>>) -> Seq<char> {
    match user {
        Some(u) => user_home_command(u),
        None => "printf %s \"$HOME\""@,
    }
}

/// Plan the expansion of a remote path.
pub fn plan_expansion(path: &str) -> (r: Expansion)
    ensures
        if !needs_expansion(path@) {
            r matches Expansion::Plain(p) && p@ == path@
        } else {
            match tilde_parts(path@) {
                Some((user, rest)) => r matches Expansion::Ask { command, suffix } && command@
                    == home_command(user) && suffix@ == rest,
                None => r matches Expansion::Fail(e) && e@ == "invalid remote path "@ + path@,
            }
        },
{
    if !remote_path_needs_expansion(path) {
        return Expansion::Plain(path.to_owned());
    }
    match split_tilde_path(path) {
        None => {
            let mut e = "invalid remote path ".to_owned();
            e.append(path);
            Expansion::Fail(e)
        },
        Some((user, suffix)) => {
            let command = match &user {
                Some(u) => {
                    let q = shell_quote(u.as_str());
                    concat3("getent passwd ", q.as_str(), " | cut -d: -f6")
                },
                None => "printf %s \"$HOME\"".to_owned(),
            };
            Expansion::Ask { command, suffix }
        },
    }
}

/// What a command that looks for a directory has found.
pub open spec fn probed(output: Seq<char>, exit_code: Option<i32>, command: Seq<char>) -> Result<
    Seq<char>,
    Seq<char>,
> {
    let found = text::trim_of(output);
    if exit_code == Some(0i32) && found.len() > 0 && found[0] == '/' {
        Ok(found)
    } else {
        Err("failed to resolve remote path via `"@ + command + "`"@)
    }
}

/// Read the answer of a command that looks for a directory. It counts if the command
/// succeeded and printed an absolute path.
pub fn probe_result(output: &str, exit_code: Option<i32>, command: &str) -> (r: Result<
    String,
    String,
>)
    ensures
        match r {
            Ok(p) => probed(output@, exit_code, command@) == Ok::<Seq<char>, Seq<char>>(p@),
            Err(e) => probed(output@, exit_code, command@) == Err::<Seq<char>, Seq<char>>(e@),
        },
{
    let found = trim(output);
    let ok = match exit_code {
        Some(c) => c == 0,
        None => false,
    };
    proof {
        reveal_strlit("/");
        if text::begins(found@, "/"@) {
            assert(found@.subrange(0, 1)[0] == "/"@[0]);
        }
        if found@.len() > 0 && found@[0] == '/' {
            assert(found@.subrange(0, 1) =~= "/"@);
        }
    }
    if ok && starts_with(found.as_str(), "/") {
        Ok(found)
    } else {
        Err(concat3("failed to resolve remote path via `", command, "`"))
    }
}

/// The same for what the command printed as it came.
pub fn probe_output(output: &[u8], exit_code: Option<i32>, command: &str) -> (r: Result<
    String,
    String,
>)
    ensures
        match r {
            Ok(p) => probed(output::lossy_text(output@), exit_code, command@) == Ok::<
                Seq<char>,
                Seq<char>,
            >(p@),
            Err(e) => probed(output::lossy_text(output@), exit_code, command@) == Err::<
                Seq<char>,
                Seq<char>,
            >(e@),
        },
{
    let printed = decode_lossy(output);
    probe_result(printed.as_str(), exit_code, command)
}

// ---------------------------------------------------------------------------
// Components
// ---------------------------------------------------------------------------
/// The last component of a path: where it begins and ends. Slashes in a row count as one, and
/// a dot on its own counts only at the very beginning.
pub open spec fn last_component(p: Seq<char>) -> Option<(int, int)>
    decreases p.len(),
    via last_component_decreases
{
    if p.len() == 0 {
        None
    } else if p.last() == '/' {
        last_component(p.drop_last())
    } else {
        let s = crate::search::last_index(p, '/') + 1;
        if s > 0 && p.skip(s) == "."@ {
            last_component(p.take(s))
        } else {
            Some((s, p.len() as int))
        }
    }
}

#[via_fn]
proof fn last_component_decreases(p: Seq<char>) {
    crate::search::lemma_last_index(p, '/');
}

fn find_last_component(p: &[char]) -> (r: Option<(usize, usize)>)
    ensures
        match r {
            Some((s, e)) => last_component(p@) == Some((s as int, e as int)) && s < e <= p.len(),
            None => last_component(p@) is None,
        },
{
    let mut n: usize = p.len();
    proof {
        reveal_strlit(".");
        assert(p@.take(n as int) =~= p@);
    }
    loop
        invariant
            n <= p.len(),
            last_component(p@) == last_component(p@.take(n as int)),
            "."@ == seq!['.'],
        decreases n,
    {
        let ghost head = p@.take(n as int);
        if n == 0 {
            return None;
        }
        if p[n - 1] == '/' {
            assert(head.last() == '/');
            assert(head.drop_last() =~= p@.take(n - 1));
            n -= 1;
            continue;
        }
        let part = vstd::slice::slice_subrange(p, 0, n);
        assert(part@ =~= head);
        let s: usize = crate::search::chars_after_last(part, '/');
        proof {
            crate::search::lemma_last_index(head, '/');
            assert(head.last() != '/');
        }
        if s > 0 && s + 1 == n && p[s] == '.' {
            assert(head.skip(s as int) =~= "."@);
            assert(head.take(s as int) =~= p@.take(s as int));
            n = s;
            continue;
        }
        proof {
            if s > 0 && head.skip(s as int) == "."@ {
                assert(head.skip(s as int).len() == 1);
                assert(head.skip(s as int)[0] == '.');
                assert(head[s as int] == p@[s as int]);
            }
            assert(s < n);
        }
        return Some((s, n));
    }
}

/// The name at the end of a path, if it ends in one.
pub open spec fn file_name_of(p: Seq<char>) -> Option<Seq<char>> {
    match last_component(p) {
        Some((s, e)) => if p.subrange(s, e) == "."@ || p.subrange(s, e) == ".."@ {
            None
        } else {
            Some(p.subrange(s, e))
        },
        None => None,
    }
}

/// Rust's `Path::file_name` on Unix.
pub fn file_name(path: &str) -> (r: Option<String>)
    ensures
        text::opt(r) == file_name_of(path@),
{
    let v = to_chars(path);
    match find_last_component(v.as_slice()) {
        None => None,
        Some((s, e)) => {
            let name = from_chars(vstd::slice::slice_subrange(v.as_slice(), s, e));
            if same(name.as_str(), ".") || same(name.as_str(), "..") {
                None
            } else {
                Some(name)
            }
        },
    }
}

/// What stands before the last component of a path.
pub open spec fn parent_of(p: Seq<char>) -> Seq<char> {
    match last_component(p) {
        Some((s, _)) => match last_component(p.take(s)) {
            Some((_, e)) => p.take(e),
            None => if s > 0 {
                "/"@
            } else {
                Seq::empty()
            },
        },
        None => Seq::empty(),
    }
}

/// Rust's `Path::parent` on Unix, of a path that ends in a component.
pub fn parent(path: &str) -> (r: String)
    ensures
        r@ == parent_of(path@),
{
    let v = to_chars(path);
    match find_last_component(v.as_slice()) {
        None => {
            let r = String::new();
            assert(r@ =~= Seq::<char>::empty());
            r
        },
        Some((s, _)) => {
            let head = vstd::slice::slice_subrange(v.as_slice(), 0, s);
            assert(head@ =~= path@.take(s as int));
            match find_last_component(head) {
                Some((_, e)) => {
                    let r = vstd::slice::slice_subrange(v.as_slice(), 0, e);
                    assert(r@ =~= path@.take(e as int));
                    from_chars(r)
                },
                None => if s > 0 {
                    "/".to_owned()
                } else {
                    let r = String::new();
                    assert(r@ =~= Seq::<char>::empty());
                    r
                },
            }
        },
    }
}

/// The name at the end of a path whose slashes at the end do not count, else a fallback.
pub open spec fn basename_or(path: Seq<char>, fallback: Seq<char>) -> Seq<char> {
    match file_name_of(without_end_slashes(path)) {
        Some(n) => n,
        None => fallback,
    }
}

/// The name at the end of a path whose slashes at the end do not count.
pub fn shell_path_basename(path: &str) -> (r: Option<String>)
    ensures
        text::opt(r) == file_name_of(without_end_slashes(path@)),
{
    let p = trim_end_slashes(path);
    file_name(p.as_str())
}

pub fn shell_path_basename_or(path: &str, fallback: &str) -> (r: String)
    ensures
        r@ == basename_or(path@, fallback@),
{
    match shell_path_basename(path) {
        Some(n) => n,
        None => fallback.to_owned(),
    }
}

/// The name that a downloaded path gets.
pub fn remote_source_name(remote_path: &str) -> (r: String)
    ensures
        r@ == basename_or(remote_path@, "download"@),
{
    shell_path_basename_or(remote_path, "download")
}

// ---------------------------------------------------------------------------
// Directories above
// ---------------------------------------------------------------------------
/// A directory, one step below `dir`.
pub open spec fn step_into(dir: Seq<char>, name: Seq<char>) -> Seq<char> {
    if dir.len() == 0 {
        name
    } else if dir.last() == '/' {
        dir + name
    } else {
        dir + "/"@ + name
    }
}

/// The directories that the segments of a path lead through, the outermost first. Empty
/// segments do not count, and a dot on its own counts only at the very beginning.
pub open spec fn dirs_through(segments: Seq<Seq<char>>, root: bool) -> Seq<Seq<char>>
    decreases segments.len(),
{
    if segments.len() == 0 {
        if root {
            seq!["/"@]
        } else {
            Seq::empty()
        }
    } else {
        let before = dirs_through(segments.drop_last(), root);
        let name = segments.last();
        if name.len() == 0 || (name == "."@ && segments.len() > 1) {
            before
        } else {
            before.push(
                step_into(
                    if before.len() == 0 {
                        Seq::empty()
                    } else {
                        before.last()
                    },
                    name,
                ),
            )
        }
    }
}

/// The directories that have to exist for a path to exist, itself among them.
pub open spec fn dirs_of(path: Seq<char>) -> Seq<Seq<char>> {
    dirs_through(text::split_of(path, '/'), path.len() > 0 && path[0] == '/')
}

/// The directories to create, one after the other, so that all of a path exists.
#[verifier::loop_isolation(false)]
pub fn dirs_to_create(path: &str) -> (r: Vec<String>)
    ensures
        text::texts(r@) == dirs_of(path@),
{
    proof {
        reveal_strlit("/");
        assert("/"@ =~= seq!['/']);
    }
    let root = starts_with(path, "/");
    proof {
        if root {
            assert(path@.subrange(0, 1)[0] == "/"@[0]);
        } else if path@.len() > 0 && path@[0] == '/' {
            assert(path@.subrange(0, 1) =~= "/"@);
        }
    }
    let segments = split(path, '/');
    let ghost all = text::texts(segments@);
    let mut r: Vec<String> = Vec::new();
    if root {
        r.push("/".to_owned());
    }
    assert(text::texts(r@) =~= dirs_through(all.take(0), root));
    let mut i: usize = 0;
    while i < segments.len()
        invariant
            i <= segments.len(),
            all == text::texts(segments@),
            text::texts(r@) == dirs_through(all.take(i as int), root),
        decreases segments.len() - i,
    {
        let name = segments[i].as_str();
        let ghost before = text::texts(r@);
        assert(all.take(i + 1).drop_last() =~= all.take(i as int));
        assert(all.take(i + 1).last() == name@);
        if !name.is_empty() && !(same(name, ".") && i > 0) {
            let next = if r.len() == 0 {
                name.to_owned()
            } else {
                let dir = r[r.len() - 1].as_str();
                proof {
                    let n = dir@.len() as int;
                    assert(dir@ == before.last());
                    if n > 0 && dir@.last() == '/' {
                        assert(dir@.subrange(n - 1, n) =~= "/"@);
                    } else if n > 0 {
                        assert(dir@.subrange(n - 1, n)[0] != '/');
                    }
                }
                if dir.is_empty() {
                    name.to_owned()
                } else if ends_with(dir, "/") {
                    let mut next = dir.to_owned();
                    next.append(name);
                    next
                } else {
                    concat3(dir, "/", name)
                }
            };
            r.push(next);
            assert(text::texts(r@) =~= before.push(next@));
        }
        i += 1;
    }
    assert(all.take(i as int) =~= all);
    r
}

// ---------------------------------------------------------------------------
// What paths mean
// ---------------------------------------------------------------------------
/// `d` is the text without the slashes at its end.
pub open spec fn is_stripped(d: Seq<char>, s: Seq<char>) -> bool {
    &&& d.len() <= s.len()
    &&& d == s.take(d.len() as int)
    &&& forall|i: int| d.len() <= i < s.len() ==> #[trigger] s[i] == '/'
    &&& d.len() > 0 ==> d.last() != '/'
}

pub proof fn lemma_stripped(s: Seq<char>)
    ensures
        is_stripped(without_end_slashes(s), s),
    decreases s.len(),
{
    let d = without_end_slashes(s);
    if s.len() > 0 && s.last() == '/' {
        let init = s.drop_last();
        lemma_stripped(init);
        assert(d =~= s.take(d.len() as int));
        assert forall|i: int| d.len() <= i < s.len() implies #[trigger] s[i] == '/' by {
            if i < init.len() {
                assert(init[i] == s[i]);
            }
        }
    } else {
        assert(d =~= s.take(d.len() as int));
    }
}

/// A path joined to a directory lies right below it: the directory, one slash however many it
/// ends with, and the path. Without a path it is the directory itself.
pub proof fn law_joined_path_lies_below(dir: Seq<char>, path: Seq<char>)
    ensures
        path.len() == 0 ==> joined(dir, path) == dir,
        path.len() > 0 ==> exists|d: Seq<char>| #[trigger]
            is_stripped(d, dir) && joined(dir, path) == d + seq!['/'] + path,
        path.len() > 0 && (dir.len() == 0 || dir.last() != '/') ==> joined(dir, path) == dir
            + seq!['/'] + path,
        path.len() > 0 ==> joined(dir + seq!['/'], path) == joined(dir, path),
{
    reveal_strlit("/");
    assert("/"@ =~= seq!['/']);
    lemma_stripped(dir);
    assert(is_stripped(without_end_slashes(dir), dir));
    assert((dir + seq!['/']).drop_last() =~= dir);
}

/// A name of an entry in a directory.
pub open spec fn is_entry_name(n: Seq<char>) -> bool {
    n.len() > 0 && !n.contains('/') && n != seq!['.'] && n != seq!['.', '.']
}

/// A path that ends in the name of something.
pub open spec fn is_plain_end(d: Seq<char>) -> bool {
    d.len() > 0 && d.last() != '/' && !(d.len() > 1 && d.last() == '.' && d[d.len() - 2] == '/')
}

proof fn lemma_component_at_end(p: Seq<char>, s: int)
    requires
        0 <= s < p.len(),
        s > 0 ==> p[s - 1] == '/',
        forall|i: int| s <= i < p.len() ==> #[trigger] p[i] != '/',
        s > 0 ==> p.skip(s) != seq!['.'],
    ensures
        last_component(p) == Some((s, p.len() as int)),
{
    reveal_strlit(".");
    assert("."@ =~= seq!['.']);
    assert(p.last() == p[p.len() - 1]);
    crate::search::lemma_last_index_is(p, '/', s - 1);
}

proof fn lemma_plain_end(d: Seq<char>)
    requires
        is_plain_end(d),
    ensures
        last_component(d) matches Some((_, e)) && e == d.len(),
{
    reveal_strlit(".");
    assert("."@ =~= seq!['.']);
    crate::search::lemma_last_index(d, '/');
    let s = crate::search::last_index(d, '/') + 1;
    assert(d.last() == d[d.len() - 1]);
    if s > 0 && d.skip(s) == seq!['.'] {
        assert(d.skip(s).len() == 1);
        assert(d.skip(s)[0] == '.');
        assert(d[s] == '.');
        assert(d[s - 1] == '/');
    }
}

/// An entry of a directory is named by its path: its name is the end of the path, and the
/// directory is what stands before it. Slashes at the end of a path do not count. The entries
/// of the root stand in the root, and a name alone in no directory.
pub proof fn law_path_names_its_entry(dir: Seq<char>, name: Seq<char>, fallback: Seq<char>)
    requires
        is_entry_name(name),
        is_plain_end(dir),
    ensures
        file_name_of(dir + seq!['/'] + name) == Some(name),
        parent_of(dir + seq!['/'] + name) == dir,
        file_name_of(dir + seq!['/'] + name + seq!['/']) == Some(name),
        parent_of(dir + seq!['/'] + name + seq!['/']) == dir,
        file_name_of(seq!['/'] + name) == Some(name),
        parent_of(seq!['/'] + name) == seq!['/'],
        file_name_of(name) == Some(name),
        parent_of(name) == Seq::<char>::empty(),
        basename_or(dir + seq!['/'] + name, fallback) == name,
        basename_or(dir + seq!['/'] + name + seq!['/'], fallback) == name,
        basename_or(name, fallback) == name,
        basename_or(name + seq!['/'], fallback) == name,
{
    reveal_strlit(".");
    reveal_strlit("..");
    reveal_strlit("/");
    assert("."@ =~= seq!['.']);
    assert(".."@ =~= seq!['.', '.']);
    assert("/"@ =~= seq!['/']);
    let slash = seq!['/'];
    let full = dir + slash + name;
    let n = dir.len() as int + 1;
    assert forall|i: int| 0 <= i < name.len() implies name[i] != '/' by {
        assert(name.contains(name[i]));
    }
    assert(full.skip(n) =~= name);
    assert(full.subrange(n, full.len() as int) =~= name);
    lemma_component_at_end(full, n);
    let head = full.take(n);
    assert(head =~= dir + slash);
    assert(head.last() == '/');
    assert(head.drop_last() =~= dir);
    lemma_plain_end(dir);
    assert(full.take(dir.len() as int) =~= dir);
    let more = full + slash;
    assert(more.last() == '/');
    assert(more.drop_last() =~= full);
    assert(more.subrange(n, full.len() as int) =~= name);
    assert(more.take(n) =~= head);
    assert(more.take(dir.len() as int) =~= dir);
    let top = slash + name;
    assert(top.skip(1) =~= name);
    assert(top.subrange(1, top.len() as int) =~= name);
    lemma_component_at_end(top, 1);
    assert(top.take(1) =~= slash);
    assert(slash.drop_last() =~= Seq::<char>::empty());
    lemma_component_at_end(name, 0);
    assert(name.subrange(0, name.len() as int) =~= name);
    assert(name.take(0) =~= Seq::<char>::empty());
    assert(full.last() == name.last());
    assert(full.last() != '/');
    assert(name.last() != '/');
    assert((name + slash).drop_last() =~= name);
    assert((name + slash).last() == '/');
    assert(without_end_slashes(name + slash) == without_end_slashes(name));
    assert(last_component(slash) == last_component(slash.drop_last()));
}

/// A path that ends in no name: it is empty, or all slashes.
pub proof fn law_slashes_have_no_name(path: Seq<char>, fallback: Seq<char>)
    requires
        forall|i: int| 0 <= i < path.len() ==> #[trigger] path[i] == '/',
    ensures
        file_name_of(path) is None,
        basename_or(path, fallback) == fallback,
{
    lemma_no_component(path);
    lemma_stripped(path);
    assert(without_end_slashes(path) =~= Seq::<char>::empty()) by {
        let d = without_end_slashes(path);
        if d.len() > 0 {
            assert(d.last() == path[d.len() - 1]);
        }
    }
    lemma_no_component(Seq::empty());
}

proof fn lemma_no_component(path: Seq<char>)
    requires
        forall|i: int| 0 <= i < path.len() ==> #[trigger] path[i] == '/',
    ensures
        last_component(path) is None,
    decreases path.len(),
{
    if path.len() > 0 {
        assert(path.last() == path[path.len() - 1]);
        lemma_no_component(path.drop_last());
    }
}

/// A tilde alone or before a slash stands for the home directory of the session, a tilde with
/// a name for that of the user; what follows the slash is kept. Any other path stays as it is.
pub proof fn law_tildes_stand_for_homes(user: Seq<char>, suffix: Seq<char>, path: Seq<char>)
    requires
        user.len() > 0,
        !user.contains('/'),
        path.len() == 0 || path[0] != '~',
    ensures
        needs_expansion(seq!['~']),
        tilde_parts(seq!['~']) == Some((None::<Seq<char>>, Seq::<char>::empty())),
        needs_expansion(seq!['~', '/'] + suffix),
        tilde_parts(seq!['~', '/'] + suffix) == Some((None::<Seq<char>>, suffix)),
        needs_expansion(seq!['~'] + user + seq!['/'] + suffix),
        tilde_parts(seq!['~'] + user + seq!['/'] + suffix) == Some((Some(user), suffix)),
        !needs_expansion(path),
{
    reveal_strlit("~");
    reveal_strlit("~/");
    assert("~"@ =~= seq!['~']);
    assert("~/"@ =~= seq!['~', '/']);
    let own = seq!['~', '/'] + suffix;
    assert(own.subrange(0, 2) =~= seq!['~', '/']);
    assert(own.skip(2) =~= suffix);
    let other = seq!['~'] + user + seq!['/'] + suffix;
    let rest = other.skip(1);
    assert(rest =~= user + seq!['/'] + suffix);
    assert forall|i: int| 0 <= i < user.len() implies rest[i] != '/' by {
        assert(user.contains(user[i]));
    }
    assert(user.contains(user[0]));
    assert(rest[user.len() as int] == '/');
    crate::search::lemma_until_is(rest, '/', user.len() as int);
    assert(rest.take(user.len() as int) =~= user);
    assert(rest.skip(user.len() as int + 1) =~= suffix);
    if text::begins(path, "~/"@) {
        assert(path.subrange(0, 2)[0] == '~');
    }
}

/// The home directory of a user is asked for with the user's name as one word, that of the
/// session by its variable. An answer counts where the command succeeded and printed an
/// absolute path; blanks around it do not count.
pub proof fn law_homes_are_asked_for(
    user: Seq<char>,
    home: Seq<char>,
    command: Seq<char>,
    code: Option<i32>,
)
    ensures
        home_command(Some(user)) == "getent passwd "@ + shell::quoted(user) + " | cut -d: -f6"@,
        home_command(None) == "printf %s \"$HOME\""@,
        home.len() > 0 && home[0] == '/' && !text::is_white(home.last()) ==> probed(
            home,
            Some(0i32),
            command,
        ) == Ok::<Seq<char>, Seq<char>>(home),
        home.len() > 0 && home[0] == '/' && !text::is_white(home.last()) ==> probed(
            home.push('\n'),
            Some(0i32),
            command,
        ) == Ok::<Seq<char>, Seq<char>>(home),
        code != Some(0i32) ==> probed(home, code, command) is Err,
        home.len() == 0 || (home[0] != '/' && !text::is_white(home[0])) ==> probed(
            home,
            code,
            command,
        ) is Err,
{
    if home.len() > 0 && home[0] == '/' && !text::is_white(home.last()) {
        let line = home.push('\n');
        assert(line.drop_last() =~= home);
        assert(line[0] == '/');
    }
    if home.len() > 0 && home[0] != '/' && !text::is_white(home[0]) {
        text::lemma_trim_end_keeps(home);
    }
}

/// The directories above and at a path, from the outside in: each lies right below the one
/// before it, and the last is the path itself.
pub proof fn law_directories_lead_to_the_path(dir: Seq<char>, name: Seq<char>)
    requires
        is_entry_name(name),
        dir.len() > 0,
        dir.last() != '/',
        dirs_of(dir).len() > 0,
        dirs_of(dir).last() == dir,
    ensures
        dirs_of(dir + seq!['/'] + name) == dirs_of(dir).push(dir + seq!['/'] + name),
        dirs_of(name) == seq![name],
        dirs_of(seq!['/'] + name) == seq![seq!['/'], seq!['/'] + name],
{
    reveal_strlit(".");
    reveal_strlit("/");
    assert("."@ =~= seq!['.']);
    assert("/"@ =~= seq!['/']);
    let slash = seq!['/'];
    let full = dir + slash + name;
    let segments = text::split_of(dir, '/');
    text::lemma_split_last(dir, name, '/');
    assert(text::split_of(full, '/') == segments.push(name));
    assert(segments.push(name).drop_last() =~= segments);
    assert(full[0] == dir[0]);
    text::lemma_split_none(name, '/');
    assert(seq![name].drop_last() =~= Seq::<Seq<char>>::empty());
    assert(name[0] != '/') by {
        assert(name.contains(name[0]));
    }
    assert(dirs_through(seq![name].drop_last(), false) =~= Seq::<Seq<char>>::empty());
    assert(dirs_of(name) =~= seq![name]);
    let top = slash + name;
    let none = Seq::<char>::empty();
    assert(top =~= none + slash + name);
    text::lemma_split_last(none, name, '/');
    text::lemma_split_none(none, '/');
    let two = text::split_of(top, '/');
    assert(two =~= seq![none, name]);
    assert(two.drop_last() =~= seq![none]);
    assert(seq![none].drop_last() =~= Seq::<Seq<char>>::empty());
    reveal_with_fuel(dirs_through, 3);
    assert(dirs_through(two.drop_last(), true) =~= seq!["/"@]);
    assert(seq!["/"@].last() == "/"@);
    assert(dirs_of(top) =~= seq![slash, top]);
}

} // verus!
