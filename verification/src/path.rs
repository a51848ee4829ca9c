//! Paths as text: the names of a path, what lies under a root directory, and
//! the part of a path that is relative to the root.
//!
//! A path is a sequence of characters in which `/` separates the names. A
//! path may start at the root (a leading `/`) or at the current directory (a
//! leading `.` that is a whole name). After that start only the names that
//! count make the path: an empty name, which repeated or trailing separators
//! leave, and the name `.` do not count. Nothing here touches a file system:
//! `..` is a name like any other.

use vstd::prelude::*;
use crate::text::{contains, occurs_at, to_chars};

verus! {

/// The separator of path names.
pub const SEPARATOR: char = '/';

/// The name of the current directory.
pub const CURRENT: char = '.';

/// The length of the first name of `p`: the characters before its first
/// separator.
pub open spec fn name_len(p: Seq<char>) -> nat
    decreases p.len(),
{
    if p.len() == 0 || p[0] == SEPARATOR {
        0
    } else {
        1 + name_len(p.skip(1))
    }
}

/// The first name of `p`, which may be empty.
pub open spec fn first_name(p: Seq<char>) -> Seq<char> {
    p.take(name_len(p) as int)
}

/// The length of the first name of `p` and of the separator that ends it.
pub open spec fn step_len(p: Seq<char>) -> nat {
    if name_len(p) < p.len() {
        name_len(p) + 1
    } else {
        p.len()
    }
}

/// What follows the first name of `p` and its separator.
pub open spec fn after_name(p: Seq<char>) -> Seq<char> {
    p.skip(step_len(p) as int)
}

/// A name counts where it is neither empty nor `.`.
pub open spec fn counts(name: Seq<char>) -> bool {
    name.len() > 0 && name != seq![CURRENT]
}

/// The names of `p` that count, in order.
pub open spec fn names(p: Seq<char>) -> Seq<Seq<char>>
    decreases p.len(),
{
    if p.len() == 0 {
        Seq::empty()
    } else if counts(first_name(p)) {
        seq![first_name(p)] + names(after_name(p))
    } else {
        names(after_name(p))
    }
}

/// `p` starts at the root.
pub open spec fn is_rooted(p: Seq<char>) -> bool {
    p.len() > 0 && p[0] == SEPARATOR
}

/// `p` starts at the current directory: its first name is `.`.
pub open spec fn starts_current(p: Seq<char>) -> bool {
    p.len() > 0 && p[0] == CURRENT && (p.len() == 1 || p[1] == SEPARATOR)
}

/// The length of the start of `p`: 1 where it starts at the root or at the
/// current directory, else 0.
pub open spec fn head_len(p: Seq<char>) -> nat {
    if is_rooted(p) || starts_current(p) {
        1
    } else {
        0
    }
}

/// `p` after its start.
pub open spec fn body(p: Seq<char>) -> Seq<char> {
    p.skip(head_len(p) as int)
}

/// The two paths start alike: both at the root, both at the current
/// directory, or both with a name.
pub open spec fn same_start(a: Seq<char>, b: Seq<char>) -> bool {
    is_rooted(a) == is_rooted(b) && starts_current(a) == starts_current(b)
}

/// The two paths name the same: they start alike and have the same names.
pub open spec fn same_path(a: Seq<char>, b: Seq<char>) -> bool {
    same_start(a, b) && names(body(a)) == names(body(b))
}

/// `path` is `root` itself or names something below it: the two start alike
/// and the names of `path` are those of `root`, followed by further names.
/// Everything lies under the empty path.
pub open spec fn is_under(path: Seq<char>, root: Seq<char>) -> bool {
    root.len() == 0 || (same_start(path, root) && names(body(root)).is_prefix_of(
        names(body(path)),
    ))
}

/// How much of `path` the names of `root` take: the length of the part of
/// `path` that holds, name for name, the names of `root`, up to the separator
/// that ends the last of them. `None` where the names of `path` do not start
/// with those of `root`.
pub open spec fn names_taken(path: Seq<char>, root: Seq<char>) -> Option<nat>
    decreases root.len(), path.len(),
{
    if root.len() == 0 {
        Some(0)
    } else if !counts(first_name(root)) {
        names_taken(path, after_name(root))
    } else if path.len() == 0 {
        None
    } else if !counts(first_name(path)) {
        match names_taken(after_name(path), root) {
            Some(taken) => Some(step_len(path) + taken),
            None => None,
        }
    } else if first_name(path) == first_name(root) {
        match names_taken(after_name(path), after_name(root)) {
            Some(taken) => Some(step_len(path) + taken),
            None => None,
        }
    } else {
        None
    }
}

/// Where the first name of `p` that counts begins; the length of `p` where
/// none counts.
pub open spec fn first_name_start(p: Seq<char>) -> nat
    decreases p.len(),
{
    if p.len() == 0 || counts(first_name(p)) {
        0
    } else {
        step_len(p) + first_name_start(after_name(p))
    }
}

/// Where the last name of `p` that counts ends; 0 where none counts.
pub open spec fn last_name_end(p: Seq<char>) -> nat
    decreases p.len(),
{
    if p.len() == 0 {
        0
    } else if last_name_end(after_name(p)) > 0 {
        step_len(p) + last_name_end(after_name(p))
    } else if counts(first_name(p)) {
        name_len(p)
    } else {
        0
    }
}

/// `p` from the first of its names that counts to the end of the last.
pub open spec fn trimmed(p: Seq<char>) -> Seq<char> {
    let from_first = p.skip(first_name_start(p) as int);
    from_first.take(last_name_end(from_first) as int)
}

/// The part of `path` below `root`: `None` where `path` does not lie under
/// `root`; else the text of `path` from the first name that follows the
/// names of `root` to the end of its last name, empty where no name follows.
/// Below the empty root stands the whole of `path`, up to the end of its last
/// name.
pub open spec fn relative_to(path: Seq<char>, root: Seq<char>) -> Option<Seq<char>> {
    if root.len() == 0 {
        Some(path.take((head_len(path) + last_name_end(body(path))) as int))
    } else if same_start(path, root) {
        match names_taken(body(path), body(root)) {
            Some(taken) => Some(trimmed(body(path).skip(taken as int))),
            None => None,
        }
    } else {
        None
    }
}

/// The root-relative form of `path`: one separator, then the part of `path`
/// below `root`.
pub open spec fn root_relative(path: Seq<char>, root: Seq<char>) -> Option<Seq<char>> {
    match relative_to(path, root) {
        Some(below) => Some(seq![SEPARATOR] + below),
        None => None,
    }
}

/// The first name of `p.skip(from)` and what follows it, as parts of `p`.
proof fn first_name_of_suffix(p: Seq<char>, from: int, end: int)
    requires
        0 <= from <= end <= p.len(),
        end - from == name_len(p.skip(from)),
    ensures
        first_name(p.skip(from)) == p.subrange(from, end),
        step_len(p.skip(from)) == (if end < p.len() {
            end + 1 - from
        } else {
            end - from
        }),
        after_name(p.skip(from)) == p.skip(
            if end < p.len() {
                end + 1
            } else {
                end
            },
        ),
{
    let s = p.skip(from);
    assert(s.take(end - from) =~= p.subrange(from, end));
    if end < p.len() {
        assert(s.skip(end + 1 - from) =~= p.skip(end + 1));
    } else {
        assert(s.skip(end - from) =~= p.skip(end));
    }
}

/// The first name is no longer than the path, holds no separator, and ends
/// at a separator or at the end of the path.
pub proof fn name_len_bound(p: Seq<char>)
    ensures
        name_len(p) <= p.len(),
        forall|k: int| 0 <= k < name_len(p) ==> p[k] != SEPARATOR,
        name_len(p) < p.len() ==> p[name_len(p) as int] == SEPARATOR,
    decreases p.len(),
{
    if p.len() > 0 && p[0] != SEPARATOR {
        let rest = p.skip(1);
        name_len_bound(rest);
        assert forall|k: int| 0 <= k < name_len(p) implies p[k] != SEPARATOR by {
            if k > 0 {
                assert(rest[k - 1] == p[k]);
            }
        }
        if name_len(p) < p.len() {
            assert(rest[name_len(rest) as int] == p[name_len(p) as int]);
        }
    }
}

/// Where the first name of `p` from `from` on ends.
fn name_end(p: &Vec<char>, from: usize) -> (end: usize)
    requires
        from <= p.len(),
    ensures
        from <= end <= p.len(),
        end - from == name_len(p@.skip(from as int)),
{
    let mut end: usize = from;
    while end < p.len() && p[end] != SEPARATOR
        invariant
            from <= end <= p.len(),
            name_len(p@.skip(from as int)) == (end - from) + name_len(p@.skip(end as int)),
        decreases p.len() - end,
    {
        proof {
            assert(p@.skip(end as int)[0] == p@[end as int]);
            assert(p@.skip(end as int).skip(1) =~= p@.skip(end + 1));
        }
        end += 1;
    }
    proof {
        if end < p.len() {
            assert(p@.skip(end as int)[0] == p@[end as int]);
        }
    }
    end
}

/// Where the name after the one that ends at `end` begins.
fn after_end(p: &Vec<char>, end: usize) -> (next: usize)
    requires
        end <= p.len(),
    ensures
        next == (if end < p.len() {
            end + 1
        } else {
            end as int
        }),
{
    if end < p.len() {
        end + 1
    } else {
        end
    }
}

/// Whether the name that stands in `p` from `from` to `end` counts.
fn counts_at(p: &Vec<char>, from: usize, end: usize) -> (counted: bool)
    requires
        from <= end <= p.len(),
    ensures
        counted == counts(p@.subrange(from as int, end as int)),
{
    let ghost name = p@.subrange(from as int, end as int);
    if end == from {
        false
    } else if end - from == 1 && p[from] == CURRENT {
        assert(name =~= seq![CURRENT]);
        false
    } else {
        assert(name != seq![CURRENT]) by {
            if name == seq![CURRENT] {
                assert(name.len() == 1);
                assert(name[0] == CURRENT);
            }
        }
        true
    }
}

/// Whether the same name stands in `a` from `a_from` to `a_end` and in `b`
/// from `b_from` to `b_end`.
fn same_name(
    a: &Vec<char>,
    a_from: usize,
    a_end: usize,
    b: &Vec<char>,
    b_from: usize,
    b_end: usize,
) -> (same: bool)
    requires
        a_from <= a_end <= a.len(),
        b_from <= b_end <= b.len(),
    ensures
        same == (a@.subrange(a_from as int, a_end as int) == b@.subrange(
            b_from as int,
            b_end as int,
        )),
{
    let ghost x = a@.subrange(a_from as int, a_end as int);
    let ghost y = b@.subrange(b_from as int, b_end as int);
    if a_end - a_from != b_end - b_from {
        assert(x.len() != y.len());
        return false;
    }
    let count: usize = a_end - a_from;
    let mut k: usize = 0;
    while k < count
        invariant
            k <= count,
            count == a_end - a_from,
            count == b_end - b_from,
            a_from <= a_end <= a.len(),
            b_from <= b_end <= b.len(),
            x == a@.subrange(a_from as int, a_end as int),
            y == b@.subrange(b_from as int, b_end as int),
            forall|j: int| 0 <= j < k ==> x[j] == y[j],
        decreases count - k,
    {
        if a[a_from + k] != b[b_from + k] {
            assert(x[k as int] != y[k as int]);
            return false;
        }
        k += 1;
    }
    assert(x =~= y);
    true
}

/// How much of the path `path`, read from `path_from` on, the names of
/// `root`, read from `root_from` on, take.
fn take_names(path: &Vec<char>, path_from: usize, root: &Vec<char>, root_from: usize) -> (taken:
    Option<usize>)
    requires
        path_from <= path.len(),
        root_from <= root.len(),
    ensures
        match taken {
            Some(at) => path_from <= at <= path.len() && names_taken(
                path@.skip(path_from as int),
                root@.skip(root_from as int),
            ) == Some((at - path_from) as nat),
            None => names_taken(path@.skip(path_from as int), root@.skip(root_from as int))
                is None,
        },
{
    let ghost whole = names_taken(path@.skip(path_from as int), root@.skip(root_from as int));
    let mut i: usize = path_from;
    let mut j: usize = root_from;
    while j < root.len()
        invariant
            path_from <= i <= path.len(),
            root_from <= j <= root.len(),
            whole == names_taken(path@.skip(path_from as int), root@.skip(root_from as int)),
            whole == match names_taken(path@.skip(i as int), root@.skip(j as int)) {
                Some(more) => Some((i - path_from + more) as nat),
                None => None,
            },
        decreases (root.len() - j) + (path.len() - i),
    {
        let root_end = name_end(root, j);
        let root_next = after_end(root, root_end);
        proof {
            first_name_of_suffix(root@, j as int, root_end as int);
        }
        if !counts_at(root, j, root_end) {
            j = root_next;
        } else if i >= path.len() {
            return None;
        } else {
            let path_end = name_end(path, i);
            let path_next = after_end(path, path_end);
            proof {
                first_name_of_suffix(path@, i as int, path_end as int);
            }
            if !counts_at(path, i, path_end) {
                i = path_next;
            } else if same_name(path, i, path_end, root, j, root_end) {
                i = path_next;
                j = root_next;
            } else {
                return None;
            }
        }
    }
    Some(i)
}

/// Where the first name that counts begins in `p`, read from `from` on.
fn first_counted(p: &Vec<char>, from: usize) -> (start: usize)
    requires
        from <= p.len(),
    ensures
        from <= start <= p.len(),
        start - from == first_name_start(p@.skip(from as int)),
{
    let mut i: usize = from;
    while i < p.len()
        invariant
            from <= i <= p.len(),
            first_name_start(p@.skip(from as int)) == (i - from) + first_name_start(
                p@.skip(i as int),
            ),
        decreases p.len() - i,
    {
        let end = name_end(p, i);
        proof {
            first_name_of_suffix(p@, i as int, end as int);
        }
        if counts_at(p, i, end) {
            return i;
        }
        i = after_end(p, end);
    }
    i
}

/// Where the last name that counts ends in `p`, read from `from` on; `from`
/// where none counts.
fn last_counted(p: &Vec<char>, from: usize) -> (end: usize)
    requires
        from <= p.len(),
    ensures
        from <= end <= p.len(),
        end - from == last_name_end(p@.skip(from as int)),
{
    let ghost whole = last_name_end(p@.skip(from as int));
    let mut last: usize = from;
    let mut i: usize = from;
    while i < p.len()
        invariant
            from <= last <= i <= p.len(),
            whole == last_name_end(p@.skip(from as int)),
            whole == (if last_name_end(p@.skip(i as int)) > 0 {
                (i - from) + last_name_end(p@.skip(i as int))
            } else {
                (last - from) as int
            }),
        decreases p.len() - i,
    {
        let end = name_end(p, i);
        proof {
            first_name_of_suffix(p@, i as int, end as int);
        }
        if counts_at(p, i, end) {
            last = end;
        }
        i = after_end(p, end);
    }
    last
}

/// Where in `path` the part below `root` stands, if `path` lies under
/// `root`.
pub fn relative_range(path: &Vec<char>, root: &Vec<char>) -> (range: Option<(usize, usize)>)
    ensures
        match range {
            Some((from, to)) => from <= to <= path.len() && relative_to(path@, root@) == Some(
                path@.subrange(from as int, to as int),
            ),
            None => relative_to(path@, root@) is None,
        },
{
    let path_head = head_of(path);
    if root.len() == 0 {
        let to = last_counted(path, path_head);
        proof {
            assert(path@.take(to as int) =~= path@.subrange(0, to as int));
        }
        return Some((0, to));
    }
    let root_head = head_of(root);
    if is_rooted_at(path) != is_rooted_at(root) || path_head != root_head {
        return None;
    }
    match take_names(path, path_head, root, root_head) {
        None => None,
        Some(at) => {
            let from = first_counted(path, at);
            let to = last_counted(path, from);
            proof {
                let rest = body(path@).skip(at - path_head);
                assert(rest =~= path@.skip(at as int));
                assert(rest.skip(from - at) =~= path@.skip(from as int));
                assert(path@.skip(from as int).take(to - from) =~= path@.subrange(
                    from as int,
                    to as int,
                ));
            }
            Some((from, to))
        },
    }
}

/// Whether `p` starts at the root.
fn is_rooted_at(p: &Vec<char>) -> (rooted: bool)
    ensures
        rooted == is_rooted(p@),
{
    p.len() > 0 && p[0] == SEPARATOR
}

/// The length of the start of `p`.
fn head_of(p: &Vec<char>) -> (head: usize)
    ensures
        head == head_len(p@),
        head <= p.len(),
{
    if p.len() > 0 && (p[0] == SEPARATOR || (p[0] == CURRENT && (p.len() == 1 || p[1]
        == SEPARATOR))) {
        1
    } else {
        0
    }
}

/// What the first name adds to the names of a path.
proof fn names_unfold(p: Seq<char>)
    requires
        p.len() > 0,
    ensures
        step_len(p) <= p.len(),
        step_len(p) > 0,
        counts(first_name(p)) ==> names(p) == seq![first_name(p)] + names(after_name(p)),
        !counts(first_name(p)) ==> names(p) == names(after_name(p)),
{
    name_len_bound(p);
}

/// The names of `root` are taken from `path` exactly where the names of
/// `path` start with them, and what is left of `path` has the other names.
pub proof fn names_taken_is_prefix(path: Seq<char>, root: Seq<char>)
    ensures
        names_taken(path, root) is Some <==> names(root).is_prefix_of(names(path)),
        names_taken(path, root) matches Some(taken) ==> taken <= path.len() && names(
            path.skip(taken as int),
        ) == names(path).skip(names(root).len() as int),
    decreases root.len(), path.len(),
{
    if root.len() == 0 {
        assert(names(root) =~= names(path).subrange(0, 0));
        assert(path.skip(0) =~= path);
        assert(names(path).skip(0) =~= names(path));
    } else {
        names_unfold(root);
        if !counts(first_name(root)) {
            names_taken_is_prefix(path, after_name(root));
        } else if path.len() == 0 {
            assert(names(root).len() > 0);
        } else {
            names_unfold(path);
            let np = names(after_name(path));
            let nr = names(after_name(root));
            if !counts(first_name(path)) {
                names_taken_is_prefix(after_name(path), root);
                if names_taken(after_name(path), root) is Some {
                    let more = names_taken(after_name(path), root)->0;
                    assert(path.skip((step_len(path) + more) as int) =~= after_name(path).skip(
                        more as int,
                    ));
                }
            } else if first_name(path) == first_name(root) {
                names_taken_is_prefix(after_name(path), after_name(root));
                let f = seq![first_name(path)];
                if nr.is_prefix_of(np) {
                    assert((f + nr) =~= (f + np).subrange(0, 1 + nr.len() as int)) by {
                        assert forall|k: int| 0 <= k < 1 + nr.len() implies (f + nr)[k] == (f
                            + np).subrange(0, 1 + nr.len() as int)[k] by {
                            if k > 0 {
                                assert(nr[k - 1] == np.subrange(0, nr.len() as int)[k - 1]);
                            }
                        }
                    }
                }
                if (f + nr).is_prefix_of(f + np) {
                    assert(nr =~= np.subrange(0, nr.len() as int)) by {
                        assert forall|k: int| 0 <= k < nr.len() implies nr[k] == np.subrange(
                            0,
                            nr.len() as int,
                        )[k] by {
                            assert((f + nr)[k + 1] == (f + np).subrange(0, 1 + nr.len() as int)[k + 1]);
                        }
                    }
                }
                if names_taken(after_name(path), after_name(root)) is Some {
                    let more = names_taken(after_name(path), after_name(root))->0;
                    assert(path.skip((step_len(path) + more) as int) =~= after_name(path).skip(
                        more as int,
                    ));
                    assert((f + np).skip(1 + nr.len() as int) =~= np.skip(nr.len() as int));
                }
            } else {
                let fp = seq![first_name(path)];
                let fr = seq![first_name(root)];
                if (fr + nr).is_prefix_of(fp + np) {
                    assert((fr + nr)[0] == (fp + np).subrange(0, 1 + nr.len() as int)[0]);
                }
            }
        }
    }
}

/// `path` has a part below `root` exactly where it lies under `root`.
pub proof fn relative_exactly_under(path: Seq<char>, root: Seq<char>)
    ensures
        relative_to(path, root) is Some <==> is_under(path, root),
        root_relative(path, root) is Some <==> is_under(path, root),
{
    names_taken_is_prefix(body(path), body(root));
}

/// Whether `path` is `root` or lies below it.
pub fn lies_under(path: &str, root: &str) -> (under: bool)
    ensures
        under == is_under(path@, root@),
{
    let path_chars = to_chars(path);
    let root_chars = to_chars(root);
    proof {
        relative_exactly_under(path@, root@);
    }
    relative_range(&path_chars, &root_chars).is_some()
}

/// The part of `file` below the directory `current_dir`. It is `None` where
/// `file` does not lie under the directory: where the two do not start
/// alike, or the names of `file` are not those of the directory followed by
/// further names. Else it is the text of `file` from the first further name
/// to the end of the last, and empty where there is none: its names are the
/// further names.
pub fn get_local_path(file: &str, current_dir: &str) -> (local: Option<String>)
    ensures
        local is Some <==> is_under(file@, current_dir@),
        match local {
            Some(below) => relative_to(file@, current_dir@) == Some(below@),
            None => relative_to(file@, current_dir@) is None,
        },
        local matches Some(below) ==> current_dir@.len() > 0 ==> names(body(current_dir@))
            + names(below@) == names(body(file@)),
{
    let file_chars = to_chars(file);
    let root_chars = to_chars(current_dir);
    proof {
        relative_exactly_under(file@, current_dir@);
        if is_under(file@, current_dir@) && current_dir@.len() > 0 {
            root_relative_rejoins(file@, current_dir@);
        }
    }
    match relative_range(&file_chars, &root_chars) {
        Some((from, to)) => Some(file.substring_char(from, to).to_owned()),
        None => None,
    }
}

/// The root-relative form of `file`: a separator, then the part of `file`
/// below `root`; `None` where `file` does not lie under `root`.
pub fn root_relative_path(file: &str, root: &str) -> (local: Option<String>)
    ensures
        local is Some <==> is_under(file@, root@),
        match local {
            Some(reference) => root_relative(file@, root@) == Some(reference@),
            None => root_relative(file@, root@) is None,
        },
{
    match get_local_path(file, root) {
        Some(below) => {
            let mut reference = String::from_str("/");
            reference.append(below.as_str());
            proof {
                reveal_strlit("/");
                assert("/"@ =~= seq![SEPARATOR]);
            }
            Some(reference)
        },
        None => None,
    }
}

/// A separator after `a` ends the first name where it ended in `a`.
proof fn name_len_of_joined(a: Seq<char>, b: Seq<char>)
    ensures
        name_len(a + seq![SEPARATOR] + b) == name_len(a),
    decreases a.len(),
{
    let joined = a + seq![SEPARATOR] + b;
    if a.len() == 0 {
        assert(joined[0] == SEPARATOR);
    } else if a[0] == SEPARATOR {
        assert(joined[0] == SEPARATOR);
    } else {
        assert(joined[0] == a[0]);
        assert(joined.skip(1) =~= a.skip(1) + seq![SEPARATOR] + b);
        name_len_of_joined(a.skip(1), b);
    }
}

/// The names of two paths that a separator joins are those of the first,
/// then those of the second.
pub proof fn names_of_joined(a: Seq<char>, b: Seq<char>)
    ensures
        names(a + seq![SEPARATOR] + b) == names(a) + names(b),
    decreases a.len(),
{
    let joined = a + seq![SEPARATOR] + b;
    name_len_of_joined(a, b);
    names_unfold(joined);
    if a.len() == 0 {
        assert(first_name(joined) =~= Seq::<char>::empty());
        assert(after_name(joined) =~= b);
        assert(names(a) + names(b) =~= names(b));
    } else {
        names_unfold(a);
        name_len_bound(a);
        let n = name_len(a) as int;
        assert(first_name(joined) =~= first_name(a));
        if n < a.len() {
            assert(after_name(joined) =~= after_name(a) + seq![SEPARATOR] + b);
            names_of_joined(after_name(a), b);
            assert(seq![first_name(a)] + (names(after_name(a)) + names(b)) =~= (seq![
                first_name(a),
            ] + names(after_name(a))) + names(b));
        } else {
            assert(after_name(joined) =~= b);
            assert(after_name(a) =~= Seq::<char>::empty());
            assert(names(after_name(a)) =~= Seq::<Seq<char>>::empty());
            assert(seq![first_name(a)] + names(b) =~= (seq![first_name(a)] + names(
                after_name(a),
            )) + names(b));
            assert(names(b) =~= names(after_name(a)) + names(b));
        }
    }
}

/// A cut at or after the end of the first name leaves the first name whole.
proof fn name_len_of_take(p: Seq<char>, k: int)
    requires
        name_len(p) <= k <= p.len(),
    ensures
        name_len(p.take(k)) == name_len(p),
    decreases p.len(),
{
    let cut = p.take(k);
    if p.len() == 0 || p[0] == SEPARATOR {
        if k > 0 {
            assert(cut[0] == p[0]);
        }
    } else {
        assert(cut[0] == p[0]);
        assert(cut.skip(1) =~= p.skip(1).take(k - 1));
        name_len_of_take(p.skip(1), k - 1);
    }
}

/// Where no name that counts ends, there is no name that counts.
proof fn no_names_without_end(q: Seq<char>)
    requires
        last_name_end(q) == 0,
    ensures
        names(q) == Seq::<Seq<char>>::empty(),
    decreases q.len(),
{
    if q.len() > 0 {
        names_unfold(q);
        name_len_bound(q);
        no_names_without_end(after_name(q));
    }
}

/// A cut at the end of the last name that counts keeps every name.
proof fn names_of_cut(t: Seq<char>)
    ensures
        last_name_end(t) <= t.len(),
        names(t.take(last_name_end(t) as int)) == names(t),
    decreases t.len(),
{
    if t.len() > 0 {
        names_unfold(t);
        name_len_bound(t);
        let after = after_name(t);
        let later = last_name_end(after) as int;
        let n = name_len(t) as int;
        names_of_cut(after);
        let cut = t.take(last_name_end(t) as int);
        if later > 0 {
            name_len_of_take(t, n + 1 + later);
            assert(first_name(cut) =~= first_name(t));
            assert(after_name(cut) =~= after.take(later));
            names_unfold(cut);
        } else if counts(first_name(t)) {
            name_len_of_take(t, n);
            assert(first_name(cut) =~= first_name(t));
            assert(after_name(cut) =~= Seq::<char>::empty());
            names_unfold(cut);
            no_names_without_end(after);
            assert(names(after_name(cut)) =~= Seq::<Seq<char>>::empty());
        } else {
            no_names_without_end(after);
            assert(cut =~= Seq::<char>::empty());
        }
    } else {
        assert(t.take(0) =~= t);
    }
}

/// What stands before the first name that counts holds no name that counts,
/// and that name, if there is one, begins where `first_name_start` says.
proof fn names_from_first(p: Seq<char>)
    ensures
        first_name_start(p) <= p.len(),
        names(p.skip(first_name_start(p) as int)) == names(p),
        first_name_start(p) < p.len() ==> counts(
            first_name(p.skip(first_name_start(p) as int)),
        ),
    decreases p.len(),
{
    if p.len() == 0 || counts(first_name(p)) {
        assert(p.skip(0) =~= p);
    } else {
        names_unfold(p);
        names_from_first(after_name(p));
        assert(p.skip(first_name_start(p) as int) =~= after_name(p).skip(
            first_name_start(after_name(p)) as int,
        ));
    }
}

/// Trimming keeps every name that counts, and what is left starts with one.
pub proof fn names_of_trimmed(p: Seq<char>)
    ensures
        names(trimmed(p)) == names(p),
        trimmed(p).len() > 0 ==> trimmed(p)[0] != SEPARATOR,
{
    names_from_first(p);
    let from_first = p.skip(first_name_start(p) as int);
    names_of_cut(from_first);
    if trimmed(p).len() > 0 {
        name_len_bound(from_first);
        assert(trimmed(p)[0] == from_first[0]);
    }
}

/// A path under a root that is not empty has a root-relative form. It starts
/// with exactly one separator, and joined to `root` it names what `path`
/// names: the two start alike, and the names of `root` followed by those of
/// the part below it are the names of `path`.
pub proof fn root_relative_rejoins(path: Seq<char>, root: Seq<char>)
    requires
        is_under(path, root),
        root.len() > 0,
    ensures
        root_relative(path, root) is Some,
        root_relative(path, root)->0[0] == SEPARATOR,
        root_relative(path, root)->0.len() > 1 ==> root_relative(path, root)->0[1] != SEPARATOR,
        same_path(root + root_relative(path, root)->0, path),
        names(body(root)) + names(relative_to(path, root)->0) == names(body(path)),
{
    names_taken_is_prefix(body(path), body(root));
    let taken = names_taken(body(path), body(root))->0;
    let rest = body(path).skip(taken as int);
    let below = trimmed(rest);
    names_of_trimmed(rest);
    let reference = seq![SEPARATOR] + below;
    assert(root_relative(path, root) == Some(reference));
    let joined = root + reference;
    assert(joined[0] == root[0]);
    if root.len() >= 2 {
        assert(joined[1] == root[1]);
    } else {
        assert(joined[1] == SEPARATOR);
    }
    assert(head_len(joined) == head_len(root));
    assert(body(joined) =~= body(root) + seq![SEPARATOR] + below);
    names_of_joined(body(root), below);
    let all = names(body(path));
    let first = names(body(root));
    assert(first + all.skip(first.len() as int) =~= all) by {
        assert forall|k: int| 0 <= k < first.len() implies first[k] == all[k] by {
            assert(first[k] == all.subrange(0, first.len() as int)[k]);
        }
    }
    if reference.len() > 1 {
        assert(reference[1] == below[0]);
    }
}

/// What the names of `root` take of `path` ends after a separator or at the
/// end of `path`, and is not empty where `root` has a name that counts.
proof fn names_taken_boundary(path: Seq<char>, root: Seq<char>)
    requires
        names_taken(path, root) is Some,
    ensures
        names_taken(path, root)->0 <= path.len(),
        names_taken(path, root)->0 == 0 || names_taken(path, root)->0 == path.len()
            || path[names_taken(path, root)->0 - 1] == SEPARATOR,
        names(root).len() > 0 ==> names_taken(path, root)->0 > 0,
    decreases root.len(), path.len(),
{
    if root.len() > 0 {
        names_unfold(root);
        if !counts(first_name(root)) {
            names_taken_boundary(path, after_name(root));
        } else {
            names_unfold(path);
            name_len_bound(path);
            let after = after_name(path);
            let next = if counts(first_name(path)) {
                after_name(root)
            } else {
                root
            };
            names_taken_boundary(after, next);
            let more = names_taken(after, next)->0 as int;
            let step = step_len(path) as int;
            if 0 < more < after.len() {
                assert(after[more - 1] == path[step + more - 1]);
            }
        }
    }
}

/// The first name that counts begins after a separator, or at the start.
proof fn first_name_start_boundary(p: Seq<char>)
    ensures
        first_name_start(p) <= p.len(),
        first_name_start(p) == 0 || first_name_start(p) == p.len() || p[first_name_start(p)
            - 1] == SEPARATOR,
    decreases p.len(),
{
    if p.len() > 0 && !counts(first_name(p)) {
        names_unfold(p);
        name_len_bound(p);
        let after = after_name(p);
        first_name_start_boundary(after);
        let more = first_name_start(after) as int;
        let step = step_len(p) as int;
        if 0 < more < after.len() {
            assert(after[more - 1] == p[step + more - 1]);
        }
    }
}

/// A path that starts with a name has a name that counts.
proof fn names_of_headless(p: Seq<char>)
    requires
        p.len() > 0,
        head_len(p) == 0,
    ensures
        names(p).len() > 0,
{
    name_len_bound(p);
    names_unfold(p);
    if first_name(p) == seq![CURRENT] {
        assert(first_name(p).len() == 1);
        assert(first_name(p)[0] == CURRENT);
    }
}

/// The root-relative form of a path that has a name below `root` stands in
/// the path itself: the separator before the first such name, then the part
/// below `root`.
pub proof fn root_relative_is_contained(path: Seq<char>, root: Seq<char>)
    requires
        is_under(path, root),
        root.len() > 0,
        relative_to(path, root)->0.len() > 0,
    ensures
        contains(path, root_relative(path, root)->0),
{
    let inner = body(path);
    names_taken_is_prefix(inner, body(root));
    names_taken_boundary(inner, body(root));
    let head = head_len(path) as int;
    let taken = names_taken(inner, body(root))->0 as int;
    let rest = inner.skip(taken);
    first_name_start_boundary(rest);
    let start = first_name_start(rest) as int;
    let from_first = rest.skip(start);
    let below = trimmed(rest);
    let reference = seq![SEPARATOR] + below;
    assert(root_relative(path, root) == Some(reference));
    let at = head + taken + start;
    names_of_cut(from_first);
    assert(from_first =~= path.skip(at));
    assert(below =~= path.subrange(at, at + below.len()));
    assert(at >= 1 && path[at - 1] == SEPARATOR) by {
        if start > 0 {
            assert(rest[start - 1] == path[at - 1]);
        } else if taken > 0 {
            assert(inner[taken - 1] == path[at - 1]);
        } else {
            if head_len(root) == 0 {
                assert(body(root) =~= root);
                names_of_headless(root);
            }
            assert(rest =~= inner);
            if starts_current(path) {
                assert(inner[0] == path[1]);
                assert(name_len(inner) == 0);
                assert(first_name(inner) =~= Seq::<char>::empty());
            }
        }
    }
    assert(path.subrange(at - 1, at - 1 + reference.len()) =~= reference);
    assert(occurs_at(path, reference, at - 1));
}

} // verus!
