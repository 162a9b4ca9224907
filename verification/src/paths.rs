//! The lexical model of paths.
//!
//! A path is a string of characters whose components are separated by `/`.
//! Everything here is decided from the characters alone: nothing in this
//! module looks at a disk. The specification functions speak of `Seq<char>`,
//! the executable functions of `&str`, and each executable function is proved
//! to compute its specification.

use vstd::prelude::*;

verus! {

/// The position of the last `c` in `p`, or `-1` where `p` holds none.
pub open spec fn last_index_of(p: Seq<char>, c: char) -> int
    decreases p.len(),
{
    if p.len() == 0 {
        -1
    } else if p.last() == c {
        p.len() - 1
    } else {
        last_index_of(p.drop_last(), c)
    }
}

/// `last_index_of` names a position of `c` after which no `c` follows.
pub proof fn lemma_last_index_of(p: Seq<char>, c: char)
    ensures
        -1 <= last_index_of(p, c) < p.len(),
        last_index_of(p, c) >= 0 ==> p[last_index_of(p, c)] == c,
        forall|j: int| last_index_of(p, c) < j < p.len() ==> p[j] != c,
    decreases p.len(),
{
    if p.len() > 0 && p.last() != c {
        let q = p.drop_last();
        lemma_last_index_of(q, c);
        assert forall|j: int| last_index_of(p, c) < j < p.len() implies p[j] != c by {
            if j < q.len() {
                assert(q[j] == p[j]);
            }
        }
    }
}

/// Only one position is a position of `c` after which no `c` follows.
pub proof fn lemma_last_index_unique(p: Seq<char>, c: char, k: int)
    requires
        -1 <= k < p.len(),
        k >= 0 ==> p[k] == c,
        forall|j: int| k < j < p.len() ==> p[j] != c,
    ensures
        last_index_of(p, c) == k,
    decreases p.len(),
{
    if p.len() > 0 && p.last() != c {
        let q = p.drop_last();
        assert(k < q.len());
        assert forall|j: int| k < j < q.len() implies q[j] != c by {
            assert(q[j] == p[j]);
        }
        if k >= 0 {
            assert(q[k] == p[k]);
        }
        lemma_last_index_unique(q, c, k);
    }
}

/// The path with every backslash replaced by a forward slash: the form in
/// which paths are reported to the host.
pub open spec fn forward_slashed(p: Seq<char>) -> Seq<char> {
    p.map_values(|c: char| if c == '\\' { '/' } else { c })
}

/// The final component: what follows the last separator, or the whole path
/// where it holds no separator.
pub open spec fn name_of(p: Seq<char>) -> Seq<char> {
    p.subrange(last_index_of(p, '/') + 1, p.len() as int)
}

/// The path without its final component. The root and the empty path have no
/// parent; a single relative name has the empty path as its parent.
pub open spec fn parent_of(p: Seq<char>) -> Option<Seq<char>> {
    let k = last_index_of(p, '/');
    if k < 0 {
        if p.len() == 0 {
            None
        } else {
            Some(Seq::<char>::empty())
        }
    } else if k == 0 {
        if p.len() == 1 {
            None
        } else {
            Some(seq!['/'])
        }
    } else {
        Some(p.subrange(0, k))
    }
}

/// Whether a file name splits into a stem and an extension: it holds a dot
/// that is not its first character, and it is not `..`.
pub open spec fn has_extension(name: Seq<char>) -> bool {
    last_index_of(name, '.') > 0 && name != seq!['.', '.']
}

/// What follows the last dot of the final component, where that component
/// splits; no result where it does not.
pub open spec fn extension_of(p: Seq<char>) -> Option<Seq<char>> {
    let name = name_of(p);
    if has_extension(name) {
        Some(name.subrange(last_index_of(name, '.') + 1, name.len() as int))
    } else {
        None
    }
}

/// The final component up to its last dot, where that component splits; the
/// whole final component where it does not.
pub open spec fn stem_of(p: Seq<char>) -> Seq<char> {
    let name = name_of(p);
    if has_extension(name) {
        name.subrange(0, last_index_of(name, '.'))
    } else {
        name
    }
}

/// Whether the component that starts at position `k` is `.` or `..`.
pub open spec fn dot_name_at(p: Seq<char>, k: int) -> bool {
    &&& 0 <= k < p.len()
    &&& p[k] == '.'
    &&& (k + 1 == p.len() || p[k + 1] == '/' || (p[k + 1] == '.' && (k + 2 == p.len() || p[k
        + 2] == '/')))
}

/// The canonical absolute form: the path starts at the root, ends in no
/// separator unless it is the root itself, and every component is a
/// non-empty name other than `.` and `..`.
pub open spec fn canonical(p: Seq<char>) -> bool {
    &&& p.len() > 0
    &&& p[0] == '/'
    &&& p.len() > 1 ==> p.last() != '/'
    &&& forall|i: int|
        0 <= i < p.len() - 1 && #[trigger] p[i] == '/' ==> p[i + 1] != '/' && !dot_name_at(p, i + 1)
}

/// Containment by whole components: `p` is `root` itself, or `root` followed
/// by a separator and more. `/games2` is not within `/games`.
pub open spec fn within(p: Seq<char>, root: Seq<char>) -> bool {
    ||| p == root
    ||| {
        &&& 0 < root.len() < p.len()
        &&& p.subrange(0, root.len() as int) == root
        &&& (root.last() == '/' || p[root.len() as int] == '/')
    }
}

/// A name that can stand as one component: not empty, free of separators,
/// and neither `.` nor `..`.
pub open spec fn plain_name(s: Seq<char>) -> bool {
    &&& s.len() > 0
    &&& forall|i: int| 0 <= i < s.len() ==> s[i] != '/'
    &&& s != seq!['.']
    &&& s != seq!['.', '.']
}

/// One segment adjoined to a base. An empty segment leaves the base as it
/// is, a segment that starts at the root replaces the base, and any other
/// segment follows the base after exactly one separator.
pub open spec fn joined(base: Seq<char>, segment: Seq<char>) -> Seq<char> {
    if segment.len() == 0 {
        base
    } else if segment[0] == '/' || base.len() == 0 {
        segment
    } else if base.last() == '/' {
        base + segment
    } else {
        base + seq!['/'] + segment
    }
}

/// The segments adjoined to the base one after the other.
pub open spec fn joined_all(base: Seq<char>, segments: Seq<Seq<char>>) -> Seq<char>
    decreases segments.len(),
{
    if segments.len() == 0 {
        base
    } else {
        joined(joined_all(base, segments.drop_last()), segments.last())
    }
}

/// Whether the path begins with a bare name: it is not empty, does not start
/// at the root, and its first component is neither `.` nor `..`.
pub open spec fn starts_with_name(p: Seq<char>) -> bool {
    p.len() > 0 && p[0] != '/' && !dot_name_at(p, 0)
}

/// The path made explicitly relative to the working directory: a path that
/// begins with a bare name gets `./` in front, any other is left alone.
pub open spec fn anchored(p: Seq<char>) -> Seq<char> {
    if starts_with_name(p) {
        seq!['.', '/'] + p
    } else {
        p
    }
}

/// What is left of `p` below `root`, for a `p` within `root`: empty where
/// the two are the same path.
pub open spec fn tail_below(p: Seq<char>, root: Seq<char>) -> Seq<char> {
    if p.len() <= root.len() {
        Seq::<char>::empty()
    } else if root.len() > 0 && root.last() == '/' {
        p.subrange(root.len() as int, p.len() as int)
    } else {
        p.subrange(root.len() as int + 1, p.len() as int)
    }
}

/// Whether `p` lies directly inside `directory`: it is `directory` with one
/// plain name adjoined, and that name is its final component.
pub open spec fn child_of(p: Seq<char>, directory: Seq<char>) -> bool {
    plain_name(name_of(p)) && p == joined(directory, name_of(p))
}

/// The characters of a string, in a vector that can be indexed.
fn chars_of(s: &str) -> (v: Vec<char>)
    ensures
        v@ == s@,
{
    let n: usize = s.unicode_len();
    let mut v: Vec<char> = Vec::new();
    let mut i: usize = 0;
    while i < n
        invariant
            n == s@.len(),
            i <= n,
            v@ == s@.subrange(0, i as int),
        decreases n - i,
    {
        v.push(s.get_char(i));
        i = i + 1;
    }
    v
}

/// The characters of `s` from position `from` up to position `to`.
fn slice_of(s: &str, from: usize, to: usize) -> (r: String)
    requires
        from <= to <= s@.len(),
    ensures
        r@ == s@.subrange(from as int, to as int),
{
    String::from_str(s.substring_char(from, to))
}

/// Finds the last `c` among the characters.
fn find_last(chars: &Vec<char>, c: char) -> (r: Option<usize>)
    ensures
        match r {
            Some(k) => last_index_of(chars@, c) == k,
            None => last_index_of(chars@, c) == -1,
        },
{
    let mut i: usize = chars.len();
    while i > 0
        invariant
            i <= chars.len(),
            forall|j: int| i <= j < chars.len() ==> chars@[j] != c,
        decreases i,
    {
        if chars[i - 1] == c {
            proof {
                lemma_last_index_unique(chars@, c, i - 1);
            }
            return Some(i - 1);
        }
        i = i - 1;
    }
    proof {
        lemma_last_index_unique(chars@, c, -1);
    }
    None
}

/// Reports a path with forward slashes only.
pub fn with_forward_slashes(path: &str) -> (r: String)
    ensures
        r@ == forward_slashed(path@),
{
    let n: usize = path.unicode_len();
    let mut out = String::new();
    let mut i: usize = 0;
    while i < n
        invariant
            n == path@.len(),
            i <= n,
            out@.len() == i,
            forall|j: int| 0 <= j < i ==> out@[j] == forward_slashed(path@)[j],
        decreases n - i,
    {
        if path.get_char(i) == '\\' {
            proof {
                reveal_strlit("/");
            }
            out.append("/");
        } else {
            out.append(path.substring_char(i, i + 1));
        }
        i = i + 1;
    }
    assert(out@ =~= forward_slashed(path@));
    out
}

/// The final component of a path.
pub fn file_name(path: &str) -> (r: String)
    ensures
        r@ == name_of(path@),
{
    let chars = chars_of(path);
    let n: usize = chars.len();
    proof {
        lemma_last_index_of(path@, '/');
    }
    match find_last(&chars, '/') {
        Some(k) => slice_of(path, k + 1, n),
        None => slice_of(path, 0, n),
    }
}

/// The path without its final component, where it has a parent.
pub fn parent(path: &str) -> (r: Option<String>)
    ensures
        match r {
            Some(d) => parent_of(path@) == Some(d@),
            None => parent_of(path@) is None,
        },
{
    let chars = chars_of(path);
    let n: usize = chars.len();
    proof {
        lemma_last_index_of(path@, '/');
    }
    match find_last(&chars, '/') {
        None => {
            if n == 0 {
                None
            } else {
                Some(String::new())
            }
        },
        Some(k) => {
            if k == 0 {
                if n == 1 {
                    None
                } else {
                    let root = slice_of(path, 0, 1);
                    assert(root@ =~= seq!['/']);
                    Some(root)
                }
            } else {
                Some(slice_of(path, 0, k))
            }
        },
    }
}

/// Whether a file name, given by its characters, splits into stem and
/// extension; where it does, the position of the dot that splits it.
fn split_point(name: &Vec<char>) -> (r: Option<usize>)
    ensures
        match r {
            Some(d) => has_extension(name@) && d == last_index_of(name@, '.'),
            None => !has_extension(name@),
        },
{
    match find_last(name, '.') {
        None => None,
        Some(d) => {
            if d == 0 {
                None
            } else if name.len() == 2 && name[0] == '.' && name[1] == '.' {
                assert(name@ =~= seq!['.', '.']);
                None
            } else {
                proof {
                    if name@ == seq!['.', '.'] {
                        assert(seq!['.', '.'].len() == 2);
                        assert(seq!['.', '.'][0] == '.');
                        assert(seq!['.', '.'][1] == '.');
                    }
                }
                Some(d)
            }
        },
    }
}

/// The extension of the final component, where it has one.
pub fn extension(path: &str) -> (r: Option<String>)
    ensures
        match r {
            Some(e) => extension_of(path@) == Some(e@),
            None => extension_of(path@) is None,
        },
{
    let name = file_name(path);
    let chars = chars_of(name.as_str());
    let n: usize = chars.len();
    proof {
        lemma_last_index_of(name@, '.');
    }
    match split_point(&chars) {
        Some(d) => Some(slice_of(name.as_str(), d + 1, n)),
        None => None,
    }
}

/// The final component without its extension.
pub fn file_stem(path: &str) -> (r: String)
    ensures
        r@ == stem_of(path@),
{
    let name = file_name(path);
    let chars = chars_of(name.as_str());
    proof {
        lemma_last_index_of(name@, '.');
    }
    match split_point(&chars) {
        Some(d) => slice_of(name.as_str(), 0, d),
        None => name,
    }
}

/// Whether the component that starts at position `k` is `.` or `..`.
fn is_dot_name_at(chars: &Vec<char>, k: usize) -> (b: bool)
    ensures
        b == dot_name_at(chars@, k as int),
{
    let n: usize = chars.len();
    if k >= n || chars[k] != '.' {
        return false;
    }
    if k + 1 == n || chars[k + 1] == '/' {
        return true;
    }
    chars[k + 1] == '.' && (k + 2 == n || chars[k + 2] == '/')
}

/// Whether a path is in canonical absolute form.
pub fn is_canonical(path: &str) -> (b: bool)
    ensures
        b == canonical(path@),
{
    let chars = chars_of(path);
    let n: usize = chars.len();
    if n == 0 || chars[0] != '/' {
        return false;
    }
    if n > 1 && chars[n - 1] == '/' {
        return false;
    }
    let mut i: usize = 0;
    while i + 1 < n
        invariant
            n == chars.len(),
            n > 0,
            i < n,
            chars@ == path@,
            forall|j: int|
                0 <= j < i && #[trigger] chars@[j] == '/' ==> chars@[j + 1] != '/' && !dot_name_at(
                    chars@,
                    j + 1,
                ),
        decreases n - i,
    {
        if chars[i] == '/' {
            if chars[i + 1] == '/' || is_dot_name_at(&chars, i + 1) {
                assert(chars@[i as int] == '/');
                return false;
            }
        }
        i = i + 1;
    }
    true
}

/// Whether `path` lies within `root`, by whole components.
pub fn is_within(path: &str, root: &str) -> (b: bool)
    ensures
        b == within(path@, root@),
{
    let p = chars_of(path);
    let r = chars_of(root);
    let n: usize = p.len();
    let m: usize = r.len();
    if m > n {
        return false;
    }
    let mut i: usize = 0;
    while i < m
        invariant
            n == p.len(),
            m == r.len(),
            m <= n,
            i <= m,
            p@ == path@,
            r@ == root@,
            forall|j: int| 0 <= j < i ==> p@[j] == r@[j],
        decreases m - i,
    {
        if p[i] != r[i] {
            assert(path@.subrange(0, m as int)[i as int] != root@[i as int]);
            return false;
        }
        i = i + 1;
    }
    assert(path@.subrange(0, m as int) =~= root@);
    if m == n {
        assert(path@ =~= path@.subrange(0, m as int));
        return true;
    }
    m > 0 && (r[m - 1] == '/' || p[m] == '/')
}

/// Adjoins one segment to a base.
pub fn join(base: &str, segment: &str) -> (r: String)
    ensures
        r@ == joined(base@, segment@),
{
    let n: usize = base.unicode_len();
    let m: usize = segment.unicode_len();
    if m == 0 {
        String::from_str(base)
    } else if n == 0 || segment.get_char(0) == '/' {
        String::from_str(segment)
    } else if base.get_char(n - 1) == '/' {
        String::from_str(base).concat(segment)
    } else {
        proof {
            reveal_strlit("/");
        }
        let r = String::from_str(base).concat("/").concat(segment);
        assert("/"@ =~= seq!['/']);
        r
    }
}

/// The text of an optional string.
pub open spec fn text_of(s: Option<String>) -> Option<Seq<char>> {
    match s {
        Some(s) => Some(s@),
        None => None,
    }
}

/// The views of the strings of a vector, in order.
pub open spec fn texts(v: Seq<String>) -> Seq<Seq<char>> {
    v.map_values(|s: String| s@)
}

/// Adjoins the segments to a base, one after the other.
pub fn join_all(base: &str, segments: &Vec<String>) -> (r: String)
    ensures
        r@ == joined_all(base@, texts(segments@)),
{
    let mut out = String::from_str(base);
    let mut i: usize = 0;
    proof {
        assert(texts(segments@).subrange(0, 0) =~= Seq::<Seq<char>>::empty());
    }
    while i < segments.len()
        invariant
            i <= segments.len(),
            out@ == joined_all(base@, texts(segments@).subrange(0, i as int)),
        decreases segments.len() - i,
    {
        let next = join(out.as_str(), segments[i].as_str());
        proof {
            let before = texts(segments@).subrange(0, i as int);
            let after = texts(segments@).subrange(0, i + 1);
            assert(after.drop_last() =~= before);
            assert(after.last() == segments@[i as int]@);
        }
        out = next;
        i = i + 1;
    }
    proof {
        assert(texts(segments@).subrange(0, segments.len() as int) =~= texts(segments@));
    }
    out
}

/// Whether a path begins with a bare name.
pub fn begins_with_name(path: &str) -> (b: bool)
    ensures
        b == starts_with_name(path@),
{
    let chars = chars_of(path);
    if chars.len() == 0 || chars[0] == '/' {
        return false;
    }
    !is_dot_name_at(&chars, 0)
}

/// Puts `./` in front of a path that begins with a bare name.
pub fn anchor(path: &str) -> (r: String)
    ensures
        r@ == anchored(path@),
{
    if begins_with_name(path) {
        proof {
            reveal_strlit("./");
        }
        let r = String::from_str("./").concat(path);
        assert("./"@ =~= seq!['.', '/']);
        r
    } else {
        String::from_str(path)
    }
}

/// What is left of `path` below `root`.
pub fn relative_tail(path: &str, root: &str) -> (r: String)
    ensures
        r@ == tail_below(path@, root@),
{
    let n: usize = path.unicode_len();
    let m: usize = root.unicode_len();
    if n <= m {
        String::new()
    } else if m > 0 && root.get_char(m - 1) == '/' {
        slice_of(path, m, n)
    } else {
        slice_of(path, m + 1, n)
    }
}

/// Whether two strings hold the same text.
pub fn same_text(a: &str, b: &str) -> (same: bool)
    ensures
        same == (a@ == b@),
{
    let x = chars_of(a);
    let y = chars_of(b);
    if x.len() != y.len() {
        return false;
    }
    let mut i: usize = 0;
    while i < x.len()
        invariant
            i <= x.len(),
            x.len() == y.len(),
            x@ == a@,
            y@ == b@,
            forall|j: int| 0 <= j < i ==> x@[j] == y@[j],
        decreases x.len() - i,
    {
        if x[i] != y[i] {
            assert(a@[i as int] != b@[i as int]);
            return false;
        }
        i = i + 1;
    }
    assert(a@ =~= b@);
    true
}

/// Whether a name can stand as one component of a path.
pub fn is_plain_name(name: &str) -> (b: bool)
    ensures
        b == plain_name(name@),
{
    let chars = chars_of(name);
    let n: usize = chars.len();
    if n == 0 {
        return false;
    }
    if n == 1 && chars[0] == '.' {
        assert(name@ =~= seq!['.']);
        return false;
    }
    if n == 2 && chars[0] == '.' && chars[1] == '.' {
        assert(name@ =~= seq!['.', '.']);
        return false;
    }
    let mut i: usize = 0;
    while i < n
        invariant
            i <= n,
            n == chars.len(),
            chars@ == name@,
            forall|j: int| 0 <= j < i ==> chars@[j] != '/',
        decreases n - i,
    {
        if chars[i] == '/' {
            return false;
        }
        i = i + 1;
    }
    proof {
        if name@ == seq!['.'] {
            assert(seq!['.'].len() == 1);
            assert(seq!['.'][0] == '.');
        }
        if name@ == seq!['.', '.'] {
            assert(seq!['.', '.'].len() == 2);
            assert(seq!['.', '.'][0] == '.');
            assert(seq!['.', '.'][1] == '.');
        }
    }
    true
}

/// Whether a path lies directly inside a directory.
pub fn is_child(path: &str, directory: &str) -> (b: bool)
    ensures
        b == child_of(path@, directory@),
{
    let name = file_name(path);
    if !is_plain_name(name.as_str()) {
        return false;
    }
    let whole = join(directory, name.as_str());
    same_text(path, whole.as_str())
}

} // verus!
