//! Paths as text, with `/` between their segments.
use crate::number;
use crate::pieces;
use crate::text;
use crate::text::CharClass;
use vstd::prelude::*;
use vstd::string::*;

verus! {

broadcast use vstd::string::group_string_axioms;

/// Whether a path starts at the root.
pub open spec fn is_rooted(path: Seq<char>) -> bool {
    path.len() > 0 && path[0] == '/'
}

/// The path that `rel` names from `base`: `rel` itself where it starts at the root, else `rel`
/// below `base`.
pub open spec fn joined(base: Seq<char>, rel: Seq<char>) -> Seq<char> {
    if is_rooted(rel) {
        rel
    } else if base.len() == 0 || base.last() == '/' {
        base + rel
    } else {
        base + seq!['/'] + rel
    }
}

/// Tests whether a path starts at the root.
pub fn starts_at_root(path: &str) -> (r: bool)
    ensures
        r == is_rooted(path@),
{
    let chars = text::chars_of(path);
    chars.len() > 0 && chars[0] == '/'
}

/// Joins two paths.
pub fn join(base: &str, rel: &str) -> (r: String)
    ensures
        r@ == joined(base@, rel@),
{
    if starts_at_root(rel) {
        return rel.to_string();
    }
    let chars = text::chars_of(base);
    let n: usize = chars.len();
    let mut s = base.to_string();
    if n > 0 && chars[n - 1] != '/' {
        s.push('/');
        assert(s@ =~= base@ + seq!['/']);
    }
    s.append(rel);
    s
}

/// Whether `id` is the name of one directory entry: the first of its segments is neither empty nor
/// `.` nor `..`, and the others, if any, are empty or `.`.
pub open spec fn is_single_name(id: Seq<char>) -> bool {
    let segments = pieces::split(id, '/');
    &&& segments.len() > 0
    &&& segments[0].len() > 0
    &&& segments[0] != "."@
    &&& segments[0] != ".."@
    &&& forall|i: int|
        1 <= i < segments.len() ==> (#[trigger] segments[i]).len() == 0 || segments[i] == "."@
}

/// Tests whether a path is the name of one directory entry.
pub fn single_name(id: &str) -> (r: bool)
    ensures
        r == is_single_name(id@),
{
    let segments = pieces::split_all(id, '/');
    let ghost all = pieces::split(id@, '/');
    if segments.len() == 0 {
        return false;
    }
    assert(all[0] == segments@[0]@);
    if segments[0].as_str().is_empty() || text::equals(segments[0].as_str(), ".") || text::equals(
        segments[0].as_str(),
        "..",
    ) {
        return false;
    }
    let mut i: usize = 1;
    while i < segments.len()
        invariant
            pieces::texts(segments@) == all,
            all == pieces::split(id@, '/'),
            1 <= i <= segments.len(),
            forall|k: int|
                1 <= k < i ==> (#[trigger] all[k]).len() == 0 || all[k] == "."@,
        decreases segments.len() - i,
    {
        assert(all[i as int] == segments@[i as int]@);
        if !segments[i].as_str().is_empty() && !text::equals(segments[i].as_str(), ".") {
            return false;
        }
        i = i + 1;
    }
    true
}

/// Whether a segment of `path` is `..`.
pub open spec fn has_parent_segment(path: Seq<char>) -> bool {
    pieces::split(path, '/').contains(".."@)
}

/// The file below `root` that a request path names; `None` where the path leads upwards. The empty
/// path names `index.html`.
pub open spec fn resolved(root: Seq<char>, request_path: Seq<char>) -> Option<Seq<char>> {
    let trimmed = text::trim_start_of(request_path, CharClass::One('/'));
    let relative = if trimmed.len() == 0 {
        "index.html"@
    } else {
        trimmed
    };
    if has_parent_segment(relative) {
        None
    } else {
        Some(joined(root, relative))
    }
}

/// Finds the file below `root` that a request path names.
pub fn resolve_path(root: &str, request_path: &str) -> (r: Option<String>)
    ensures
        match r {
            Some(path) => resolved(root@, request_path@) == Some(path@),
            None => resolved(root@, request_path@) is None,
        },
{
    let trimmed = text::start_trimmed(request_path, CharClass::One('/'));
    let relative: &str = if trimmed.is_empty() {
        "index.html"
    } else {
        trimmed
    };
    let segments = pieces::split_all(relative, '/');
    let ghost all = pieces::split(relative@, '/');
    let mut i: usize = 0;
    while i < segments.len()
        invariant
            pieces::texts(segments@) == all,
            all == pieces::split(relative@, '/'),
            i <= segments.len(),
            forall|k: int| 0 <= k < i ==> #[trigger] all[k] != ".."@,
            relative@ == (if text::trim_start_of(request_path@, CharClass::One('/')).len() == 0 {
                "index.html"@
            } else {
                text::trim_start_of(request_path@, CharClass::One('/'))
            }),
        decreases segments.len() - i,
    {
        assert(all[i as int] == segments@[i as int]@);
        if text::equals(segments[i].as_str(), "..") {
            assert(all.contains(".."@));
            return None;
        }
        i = i + 1;
    }
    assert(!all.contains(".."@));
    Some(join(root, relative))
}

/// The name of the lock file of a state file; a path without a file name locks `llm-box-state`.
pub open spec fn lock_name(file_name: Option<Seq<char>>) -> Seq<char> {
    "."@ + state_name(file_name) + ".lock"@
}

/// The name that stands for a state file.
pub open spec fn state_name(file_name: Option<Seq<char>>) -> Seq<char> {
    match file_name {
        Some(name) => name,
        None => "llm-box-state"@,
    }
}

/// The name of the temporary file through which a state file is replaced.
pub open spec fn temp_name(file_name: Option<Seq<char>>, pid: u32, counter: u64) -> Seq<char> {
    "."@ + state_name(file_name) + "."@ + number::decimal(pid as nat) + "."@ + number::decimal(
        counter as nat,
    ) + ".tmp"@
}

/// Names the lock file of a state file.
pub fn lock_file_name(file_name: Option<&str>) -> (r: String)
    ensures
        r@ == lock_name(text::opt_str(file_name)),
{
    let mut s = ".".to_string();
    s.append(
        match file_name {
            Some(name) => name,
            None => "llm-box-state",
        },
    );
    s.append(".lock");
    s
}

/// Places the lock file of a state file beside it; a file without a directory is in the current
/// one.
pub fn lock_path_for(parent: Option<&str>, file_name: Option<&str>) -> (r: String)
    ensures
        r@ == joined(
            match parent {
                Some(parent) => parent@,
                None => "."@,
            },
            lock_name(text::opt_str(file_name)),
        ),
{
    let name = lock_file_name(file_name);
    match parent {
        Some(parent) => join(parent, name.as_str()),
        None => join(".", name.as_str()),
    }
}

/// Names the temporary file through which a state file is replaced.
pub fn temp_file_name(file_name: Option<&str>, pid: u32, counter: u64) -> (r: String)
    ensures
        r@ == temp_name(text::opt_str(file_name), pid, counter),
{
    let mut s = ".".to_string();
    s.append(
        match file_name {
            Some(name) => name,
            None => "llm-box-state",
        },
    );
    s.append(".");
    s.append(number::decimal_of(pid as u64).as_str());
    s.append(".");
    s.append(number::decimal_of(counter).as_str());
    s.append(".tmp");
    s
}

/// Two temporary files of a state file that different processes made, or one process with
/// different counts, have different names.
pub proof fn temp_names_are_unique(
    file_name: Option<Seq<char>>,
    pid1: u32,
    counter1: u64,
    pid2: u32,
    counter2: u64,
)
    requires
        temp_name(file_name, pid1, counter1) == temp_name(file_name, pid2, counter2),
    ensures
        pid1 == pid2,
        counter1 == counter2,
{
    reveal_strlit(".");
    reveal_strlit(".tmp");
    let head = "."@ + state_name(file_name) + "."@;
    let p1 = number::decimal(pid1 as nat);
    let p2 = number::decimal(pid2 as nat);
    let c1 = number::decimal(counter1 as nat);
    let c2 = number::decimal(counter2 as nat);
    let a = temp_name(file_name, pid1, counter1).skip(head.len() as int);
    let b = temp_name(file_name, pid2, counter2).skip(head.len() as int);
    number::decimal_is_digits(pid1 as nat);
    number::decimal_is_digits(pid2 as nat);
    number::decimal_is_digits(counter1 as nat);
    number::decimal_is_digits(counter2 as nat);
    assert(a =~= p1 + "."@ + c1 + ".tmp"@);
    assert(b =~= p2 + "."@ + c2 + ".tmp"@);
    assert forall|i: int| 0 <= i < p1.len() implies a[i] != '.' by {
        assert(a[i] == p1[i]);
    }
    assert forall|i: int| 0 <= i < p2.len() implies b[i] != '.' by {
        assert(b[i] == p2[i]);
    }
    assert(a[p1.len() as int] == '.' && b[p2.len() as int] == '.');
    text::find_from_first(a, '.', p1.len() as int);
    text::find_from_first(b, '.', p2.len() as int);
    assert(p1 =~= a.take(p1.len() as int));
    assert(p2 =~= b.take(p2.len() as int));
    let n = p1.len() as int;
    assert(c1 =~= a.subrange(n + 1, a.len() - 4));
    assert(c2 =~= b.subrange(n + 1, b.len() - 4));
    number::decimal_has_value(pid1 as nat);
    number::decimal_has_value(pid2 as nat);
    number::decimal_has_value(counter1 as nat);
    number::decimal_has_value(counter2 as nat);
}

/// A path from the root is itself, wherever it is asked for; any other stands below the base, with
/// one slash between them.
pub proof fn paths_are_joined_by_one_slash(base: Seq<char>, rel: Seq<char>)
    ensures
        rel.len() > 0 && rel[0] == '/' ==> joined(base, rel) == rel,
        rel.len() == 0 || rel[0] != '/' ==> {
            &&& base.len() > 0 && base[base.len() - 1] != '/' ==> joined(base, rel) == base + "/"@
                + rel
            &&& base.len() > 0 && base[base.len() - 1] == '/' ==> joined(base, rel) == base + rel
            &&& base.len() == 0 ==> joined(base, rel) == rel
        },
{
    reveal_strlit("/");
    assert("/"@ =~= seq!['/']);
    assert(base.len() == 0 ==> base + rel =~= rel);
}

/// A name without a slash is that of one directory entry, unless it is empty, `.` or `..`. A slash
/// may only stand behind it, with nothing or `.` after it.
pub proof fn names_of_entries(name: Seq<char>, rest: Seq<char>)
    requires
        !name.contains('/'),
        !rest.contains('/'),
    ensures
        is_single_name(name) <==> name.len() > 0 && name != "."@ && name != ".."@,
        is_single_name(name + "/"@ + rest) <==> name.len() > 0 && name != "."@ && name != ".."@ && (
        rest.len() == 0 || rest == "."@),
{
    reveal_strlit("/");
    assert("/"@ =~= seq!['/']);
    pieces::pieces_stand_between_separators(name, rest, '/');
    pieces::pieces_stand_between_separators(rest, rest, '/');
    let one = pieces::split(name, '/');
    assert(one.len() == 1 && one[0] == name);
    let two = pieces::split(name + "/"@ + rest, '/');
    assert(two.len() == 2 && two[0] == name && two[1] == rest);
}

/// A path leads upwards just where one of its segments is `..`.
pub proof fn segments_lead_upwards(a: Seq<char>, b: Seq<char>)
    ensures
        has_parent_segment(a + "/"@ + b) <==> has_parent_segment(a) || has_parent_segment(b),
        !a.contains('/') ==> (has_parent_segment(a) <==> a == ".."@),
{
    reveal_strlit("/");
    assert("/"@ =~= seq!['/']);
    pieces::pieces_add_up(a, b, '/');
    let (x, y) = (pieces::split(a, '/'), pieces::split(b, '/'));
    let all = pieces::split(a + "/"@ + b, '/');
    assert(all == x + y);
    if x.contains(".."@) {
        let i = choose|i: int| 0 <= i < x.len() && x[i] == ".."@;
        assert(all[i] == ".."@);
    }
    if y.contains(".."@) {
        let i = choose|i: int| 0 <= i < y.len() && y[i] == ".."@;
        assert(all[x.len() + i] == ".."@);
    }
    if all.contains(".."@) {
        let i = choose|i: int| 0 <= i < all.len() && all[i] == ".."@;
        if i < x.len() {
            assert(x[i] == ".."@);
        } else {
            assert(y[i - x.len()] == ".."@);
        }
    }
    if !a.contains('/') {
        pieces::pieces_stand_between_separators(a, b, '/');
        assert(x[0] == a && x.len() == 1);
    }
}

/// Slashes in front of a request path do not matter, whatever their number. A path of slashes alone
/// names `index.html`; one that leads upwards names nothing; any other names the file at that path
/// below the root, all of it.
pub proof fn request_path_is_resolved(root: Seq<char>, slashes: Seq<char>, path: Seq<char>)
    requires
        forall|i: int| 0 <= i < slashes.len() ==> #[trigger] slashes[i] == '/',
        path.len() > 0 ==> path[0] != '/',
    ensures
        path.len() > 0 && has_parent_segment(path) ==> resolved(root, slashes + path) == None::<
            Seq<char>,
        >,
        path.len() > 0 && !has_parent_segment(path) ==> resolved(root, slashes + path) == Some(
            joined(root, path),
        ),
        resolved(root, slashes) == Some(joined(root, "index.html"@)),
{
    leading_slashes(slashes, path);
    let none = Seq::<char>::empty();
    leading_slashes(slashes, none);
    assert(slashes + none =~= slashes);
    reveal_strlit("index.html");
    reveal_strlit("..");
    let name = "index.html"@;
    assert(!name.contains('/'));
    segments_lead_upwards(name, name);
    assert(name.len() == 10 && ".."@.len() == 2);
}

/// Slashes in front are taken off.
proof fn leading_slashes(slashes: Seq<char>, path: Seq<char>)
    requires
        forall|i: int| 0 <= i < slashes.len() ==> #[trigger] slashes[i] == '/',
        path.len() > 0 ==> path[0] != '/',
    ensures
        text::trim_start_of(slashes + path, CharClass::One('/')) == path,
    decreases slashes.len(),
{
    let s = slashes + path;
    if slashes.len() == 0 {
        assert(s =~= path);
    } else {
        assert(s[0] == slashes[0]);
        assert(s.drop_first() =~= slashes.drop_first() + path);
        leading_slashes(slashes.drop_first(), path);
    }
}

/// The lock file and the temporary files of a state file stand beside it under hidden names: a dot,
/// the name of the file, and what tells them apart.
pub proof fn state_files_have_companions(name: Seq<char>, pid: u32, counter: u64)
    ensures
        lock_name(Some(name)) == "."@ + name + ".lock"@,
        lock_name(None) == ".llm-box-state.lock"@,
        temp_name(Some(name), pid, counter) == "."@ + name + "."@ + number::decimal(pid as nat)
            + "."@ + number::decimal(counter as nat) + ".tmp"@,
        temp_name(None, pid, counter) == ".llm-box-state."@ + number::decimal(pid as nat) + "."@
            + number::decimal(counter as nat) + ".tmp"@,
        lock_name(Some(name)) != name,
        temp_name(Some(name), pid, counter) != name,
        lock_name(Some(name)) != temp_name(Some(name), pid, counter),
{
    reveal_strlit(".");
    reveal_strlit(".lock");
    reveal_strlit(".tmp");
    reveal_strlit("llm-box-state");
    reveal_strlit(".llm-box-state.lock");
    reveal_strlit(".llm-box-state.");
    assert(lock_name(None) =~= ".llm-box-state.lock"@);
    assert("."@ + "llm-box-state"@ + "."@ =~= ".llm-box-state."@);
    let lock = lock_name(Some(name));
    let temp = temp_name(Some(name), pid, counter);
    assert(lock.len() > name.len() && temp.len() > name.len());
    assert(lock.last() == 'k' && temp.last() == 'p');
}

} // verus!
