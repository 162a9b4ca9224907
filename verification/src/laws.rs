//! What holds of the sandbox as a whole, proved from the definitions that
//! the contracts of the other modules use.

use crate::directory::{relative_form, reported_way};
use crate::effects::{removing, StepView};
use crate::error::{save_data_missing, unresolved, ErrorKind, ITBError};
use crate::file::reading;
use crate::paths::{
    anchored, canonical, dot_name_at, extension_of, forward_slashed, joined, joined_all,
    last_index_of, lemma_last_index_of, lemma_last_index_unique, name_of, parent_of, plain_name,
    starts_with_name, stem_of, tail_below, within,
};
use crate::path_filter::{candidate_locations, first_true, resolved, PathFilter};
use vstd::prelude::*;

verus! {

/// Containment is transitive: what lies within a path that lies within a
/// root lies within that root.
pub proof fn law_within_is_transitive(a: Seq<char>, b: Seq<char>, c: Seq<char>)
    requires
        within(a, b),
        within(b, c),
    ensures
        within(a, c),
{
    if a != b && b != c {
        assert(a.subrange(0, c.len() as int) =~= b.subrange(0, c.len() as int)) by {
            assert forall|i: int| 0 <= i < c.len() implies a[i] == b[i] by {
                assert(a.subrange(0, b.len() as int)[i] == b[i]);
            }
        }
        assert(a[c.len() as int] == a.subrange(0, b.len() as int)[c.len() as int]);
    }
}

/// A plain name adjoined to a canonical path gives a canonical path that
/// lies within the first.
pub proof fn law_plain_name_stays_below(base: Seq<char>, name: Seq<char>)
    requires
        canonical(base),
        plain_name(name),
    ensures
        canonical(joined(base, name)),
        within(joined(base, name), base),
{
    let j = joined(base, name);
    let n = base.len() as int;
    // Where the name starts in the joined path.
    let at: int = if base.last() == '/' {
        n
    } else {
        n + 1
    };
    if base.last() == '/' {
        assert(n == 1);
        assert(j =~= base + name);
    } else {
        assert(j =~= base + seq!['/'] + name);
        assert(j[n] == '/');
    }
    assert(j.len() == at + name.len());
    assert forall|i: int| 0 <= i < name.len() implies j[at + i] == name[i] by {}
    assert forall|i: int| 0 <= i < n implies j[i] == base[i] by {}
    assert(j.subrange(0, n) =~= base);
    assert(!dot_name_at(j, at)) by {
        if name.len() == 1 && name[0] == '.' {
            assert(name =~= seq!['.']);
        }
        if name.len() == 2 && name[0] == '.' && name[1] == '.' {
            assert(name =~= seq!['.', '.']);
        }
        if name.len() > 1 {
            assert(j[at + 1] == name[1]);
        }
        if name.len() > 2 {
            assert(j[at + 2] == name[2]);
        }
        assert(j[at] == name[0]);
    }
    assert(j.last() == name[name.len() - 1]);
    assert forall|i: int| 0 <= i < j.len() - 1 && #[trigger] j[i] == '/' implies j[i + 1] != '/'
        && !dot_name_at(j, i + 1) by {
        if i + 1 < n {
            assert(base[i] == '/');
            assert(j[i + 1] == base[i + 1]);
            if i + 2 < n {
                assert(j[i + 2] == base[i + 2]);
            }
            if i + 3 < n {
                assert(j[i + 3] == base[i + 3]);
            }
        } else if i + 1 == at {
            assert(j[at] == name[0]);
        } else {
            assert(j[i] == name[i - at]);
        }
    }
}

/// Going down by a plain name and up again leads back: the child of a
/// canonical directory has that directory as its parent and the name as its
/// name.
pub proof fn law_child_leads_back(base: Seq<char>, name: Seq<char>)
    requires
        canonical(base),
        plain_name(name),
    ensures
        name_of(joined(base, name)) == name,
        parent_of(joined(base, name)) == Some(base),
{
    let j = joined(base, name);
    let n = base.len() as int;
    let at: int = if base.last() == '/' {
        n
    } else {
        n + 1
    };
    if base.last() == '/' {
        assert(n == 1);
        assert(j =~= base + name);
        assert(base =~= seq!['/']);
    } else {
        assert(j =~= base + seq!['/'] + name);
    }
    assert(j[at - 1] == '/');
    assert forall|i: int| at - 1 < i < j.len() implies j[i] != '/' by {
        assert(j[i] == name[i - at]);
    }
    lemma_last_index_unique(j, '/', at - 1);
    assert(j.subrange(at, j.len() as int) =~= name);
    if at - 1 > 0 {
        assert(j.subrange(0, at - 1) =~= base);
    }
}

/// Every canonical path but the root is its parent with its name adjoined,
/// and that name is a plain name.
pub proof fn law_canonical_path_splits(path: Seq<char>)
    requires
        canonical(path),
        path.len() > 1,
    ensures
        plain_name(name_of(path)),
        parent_of(path) matches Some(parent) && joined(parent, name_of(path)) == path,
{
    lemma_last_index_of(path, '/');
    let k = last_index_of(path, '/');
    let name = name_of(path);
    assert(k >= 0) by {
        if k < 0 {
            assert(path[0] != '/');
        }
    }
    assert(path[k] == '/');
    assert(k < path.len() - 1);
    assert(!dot_name_at(path, k + 1));
    assert(name[0] == path[k + 1]);
    assert forall|i: int| 0 <= i < name.len() implies name[i] != '/' by {
        assert(name[i] == path[k + 1 + i]);
    }
    if name == seq!['.'] {
        assert(seq!['.'].len() == 1);
        assert(seq!['.'][0] == '.');
    }
    if name == seq!['.', '.'] {
        assert(seq!['.', '.'].len() == 2);
        assert(seq!['.', '.'][0] == '.');
        assert(seq!['.', '.'][1] == '.');
        assert(name[1] == path[k + 2]);
    }
    if k == 0 {
        assert(joined(seq!['/'], name) =~= path);
    } else {
        let parent = path.subrange(0, k);
        assert(path[k - 1] != '/') by {
            if path[k - 1] == '/' {
                assert(path[(k - 1) + 1] != '/');
            }
        }
        assert(parent.last() == path[k - 1]);
        assert(parent + seq!['/'] + name =~= path);
    }
}

/// The parent of a canonical path is canonical, differs from the path, and
/// contains it.
pub proof fn law_parent_contains(path: Seq<char>)
    requires
        canonical(path),
    ensures
        parent_of(path) matches Some(parent) ==> canonical(parent) && within(path, parent)
            && parent != path && !within(parent, path),
{
    lemma_last_index_of(path, '/');
    let k = last_index_of(path, '/');
    assert(k >= 0) by {
        if k < 0 {
            assert(path[0] != '/');
        }
    }
    if k == 0 {
        if path.len() > 1 {
            let parent = seq!['/'];
            assert(path.subrange(0, 1) =~= parent);
        }
    } else {
        let parent = path.subrange(0, k);
        assert(path[k] == '/');
        assert(path[k - 1] != '/') by {
            if path[k - 1] == '/' {
                assert(path[(k - 1) + 1] != '/');
            }
        }
        assert forall|i: int|
            0 <= i < parent.len() - 1 && #[trigger] parent[i] == '/' implies parent[i + 1] != '/'
            && !dot_name_at(parent, i + 1) by {
            assert(path[i] == '/');
            assert(parent[i + 1] == path[i + 1]);
            if i + 2 < k {
                assert(parent[i + 2] == path[i + 2]);
            }
            if i + 3 < k {
                assert(parent[i + 3] == path[i + 3]);
            }
        }
    }
}

/// The name of a file is its stem, and where it has an extension, a dot and
/// the extension after it.
pub proof fn law_name_splits(path: Seq<char>)
    ensures
        match extension_of(path) {
            Some(e) => name_of(path) == stem_of(path) + seq!['.'] + e,
            None => name_of(path) == stem_of(path),
        },
{
    let name = name_of(path);
    lemma_last_index_of(name, '.');
    if extension_of(path) is Some {
        let d = last_index_of(name, '.');
        let whole = name.subrange(0, d) + seq!['.'] + name.subrange(d + 1, name.len() as int);
        assert(whole =~= name);
    }
}

/// A reported path is as long as the path, holds no backslash, and is its
/// own report.
pub proof fn law_report_has_no_backslash(path: Seq<char>)
    ensures
        forward_slashed(path).len() == path.len(),
        forall|i: int| 0 <= i < path.len() ==> forward_slashed(path)[i] != '\\',
        forward_slashed(forward_slashed(path)) == forward_slashed(path),
{
    assert(forward_slashed(forward_slashed(path)) =~= forward_slashed(path));
}

/// What is reached by plain names from a canonical path that the sandbox
/// admits is canonical and admitted too: going down never leaves the
/// sandbox.
pub proof fn law_below_admitted_is_admitted(
    filter: PathFilter,
    base: Seq<char>,
    names: Seq<Seq<char>>,
)
    requires
        canonical(base),
        filter.admits(base),
        forall|i: int| 0 <= i < names.len() ==> plain_name(#[trigger] names[i]),
    ensures
        canonical(joined_all(base, names)),
        within(joined_all(base, names), base),
        filter.admits(joined_all(base, names)),
    decreases names.len(),
{
    if names.len() > 0 {
        let front = names.drop_last();
        assert forall|i: int| 0 <= i < front.len() implies plain_name(#[trigger] front[i]) by {
            assert(front[i] == names[i]);
        }
        law_below_admitted_is_admitted(filter, base, front);
        law_plain_name_stays_below(joined_all(base, front), names.last());
        law_within_is_transitive(joined_all(base, names), joined_all(base, front), base);
        if within(base, filter.game_root()) {
            law_within_is_transitive(joined_all(base, names), base, filter.game_root());
        } else {
            law_within_is_transitive(joined_all(base, names), base, filter.save_root()->0);
        }
    }
}

/// What is reached from a root of the sandbox by plain names is canonical
/// and admitted.
pub proof fn law_below_a_root_is_admitted(
    filter: PathFilter,
    root: Seq<char>,
    names: Seq<Seq<char>>,
)
    requires
        filter.wf(),
        root == filter.game_root() || filter.save_root() == Some(root),
        forall|i: int| 0 <= i < names.len() ==> plain_name(#[trigger] names[i]),
    ensures
        canonical(joined_all(root, names)),
        within(joined_all(root, names), root),
        filter.admits(joined_all(root, names)),
{
    law_below_admitted_is_admitted(filter, root, names);
}

/// A path whose canonical form lies outside the game root, and outside the
/// save-data root where that is known, is not admitted.
pub proof fn law_outside_both_roots_is_not_admitted(filter: PathFilter, path: Seq<char>)
    requires
        filter.resolved(path) matches Some(t) ==> !within(t, filter.game_root())
            && !filter.save_root_holds(t),
    ensures
        !filter.admits(path),
{
}

/// A directory beside a root, reached through the root's parent under
/// another name, lies outside that root.
pub proof fn law_sibling_is_outside(parent: Seq<char>, name: Seq<char>, other: Seq<char>)
    requires
        canonical(parent),
        plain_name(name),
        plain_name(other),
        name != other,
    ensures
        !within(joined(parent, other), joined(parent, name)),
{
    let root = joined(parent, name);
    let sibling = joined(parent, other);
    let at: int = if parent.last() == '/' {
        parent.len() as int
    } else {
        parent.len() as int + 1
    };
    if parent.last() == '/' {
        assert(root =~= parent + name);
        assert(sibling =~= parent + other);
    } else {
        assert(root =~= parent + seq!['/'] + name);
        assert(sibling =~= parent + seq!['/'] + other);
    }
    assert forall|i: int| 0 <= i < name.len() implies root[at + i] == name[i] by {}
    assert forall|i: int| 0 <= i < other.len() implies sibling[at + i] == other[i] by {}
    if within(sibling, root) {
        if sibling == root {
            assert(name =~= other) by {
                assert forall|i: int| 0 <= i < name.len() implies name[i] == other[i] by {
                    assert(root[at + i] == sibling[at + i]);
                }
            }
        } else {
            assert(root.last() == name[name.len() - 1]);
            assert(sibling[root.len() as int] == other[name.len() as int]);
        }
    }
}

/// Going to a path below a directory by the way that `relativize` reports
/// leads back to that path: for a canonical directory and a canonical path
/// within it, where the path holds no backslash, which a report would
/// replace.
pub proof fn law_relativize_round_trip(base: Seq<char>, path: Seq<char>, root: Seq<char>)
    requires
        canonical(base),
        canonical(path),
        within(path, base),
        forward_slashed(path) == path,
    ensures
        reported_way(relative_form(path, base)) matches Some(way) && {
            &&& joined_all(base, seq![way]) == path
            &&& resolved(joined_all(base, seq![way]), root) == Some(path)
        },
{
    let tail = tail_below(path, base);
    let way = forward_slashed(tail);
    let n = base.len() as int;
    assert(way =~= tail) by {
        assert forall|i: int| 0 <= i < tail.len() implies way[i] == tail[i] by {
            let k = path.len() - tail.len() + i;
            assert(tail[i] == path[k]);
            assert(forward_slashed(path)[k] == path[k]);
        }
    }
    assert(joined_all(base, seq![way]) == joined(base, way)) by {
        let only = seq![way];
        assert(only.last() == way);
        assert(only.drop_last() =~= Seq::<Seq<char>>::empty());
        assert(joined_all(base, only.drop_last()) == base);
    }
    if path == base {
        assert(tail.len() == 0);
    } else if base.last() == '/' {
        assert(n == 1);
        assert(path[0] == '/');
        assert(tail[0] == path[1]);
        assert(joined(base, way) =~= path);
    } else {
        assert(path[n] == '/');
        assert(path.len() > n + 1);
        assert(tail[0] == path[n + 1]);
        assert(path.subrange(0, n) == base);
        assert(joined(base, way) =~= path) by {
            let j = base + seq!['/'] + tail;
            assert forall|i: int| 0 <= i < path.len() implies j[i] == path[i] by {
                if i < n {
                    assert(path.subrange(0, n)[i] == path[i]);
                }
            }
        }
    }
}

/// An anchored path does not begin with a bare name, and anchoring it
/// again changes nothing.
pub proof fn law_anchored_once(path: Seq<char>)
    ensures
        !starts_with_name(anchored(path)),
        anchored(anchored(path)) == anchored(path),
{
    if starts_with_name(path) {
        let a = seq!['.', '/'] + path;
        assert(a[0] == '.');
        assert(a[1] == '/');
    }
}

/// Where the user has a documents directory, the game's folder under it is
/// the first location that is tried, and a hit there is the first hit.
pub proof fn law_documents_come_first(documents: Seq<char>, found: Seq<bool>)
    ensures
        candidate_locations(Some(documents)).len() == 3,
        candidate_locations(Some(documents))[0] == joined(
            documents,
            "My Games/Into The Breach"@,
        ),
        found.len() > 0 && found[0] ==> first_true(found) == 0,
{
}

/// `first_true` names the first position that holds `true`: no position
/// before it holds `true`, and where it is the length, none does.
pub proof fn law_first_true(found: Seq<bool>)
    ensures
        0 <= first_true(found) <= found.len(),
        first_true(found) < found.len() ==> found[first_true(found)],
        forall|j: int| 0 <= j < first_true(found) ==> !found[j],
    decreases found.len(),
{
    if found.len() > 0 && !found[0] {
        let rest = found.drop_first();
        law_first_true(rest);
        assert forall|j: int| 0 <= j < first_true(found) implies !found[j] by {
            if j > 0 {
                assert(rest[j - 1] == found[j]);
            }
        }
    }
}

/// A verdict, once the sandbox admits a path, holds in every later state of
/// the sandbox: finding the save-data root takes nothing away.
pub proof fn law_admission_is_kept(earlier: PathFilter, later: PathFilter, path: Seq<char>)
    requires
        later.extends(earlier),
        earlier.admits(path),
    ensures
        later.admits(path),
{
}

/// Nothing outside the sandbox passes a judgement, and what passes lies
/// inside: a path is let pass exactly where the sandbox, as it stands after
/// the judgement, admits it.
pub proof fn law_outside_never_passes(
    later: PathFilter,
    earlier: PathFilter,
    path: Seq<char>,
    denial: Seq<char>,
    r: Result<(), ITBError>,
)
    requires
        later.judged(earlier, path, denial, r),
    ensures
        r is Ok <==> later.admits(path),
        earlier.settles(path) ==> (r matches Err(e) ==> e@ == (ErrorKind::AccessDenied, denial)),
{
}

/// With both roots known the judgement of a path is fixed by the path: a
/// path without a canonical form cannot be resolved, a path whose canonical
/// form lies within a root passes, and any other is refused with
/// `AccessDenied`. Nothing is searched, and the roots stay as they are.
pub proof fn law_judgement_with_both_roots(
    later: PathFilter,
    earlier: PathFilter,
    path: Seq<char>,
    denial: Seq<char>,
    r: Result<(), ITBError>,
)
    requires
        later.judged(earlier, path, denial, r),
        earlier.save_root() is Some,
    ensures
        later.save_root() == earlier.save_root(),
        match earlier.resolved(path) {
            None => r matches Err(e) && unresolved(e),
            Some(t) => if within(t, earlier.game_root()) || earlier.save_root_holds(t) {
                r is Ok
            } else {
                r matches Err(e) && e@ == (ErrorKind::AccessDenied, denial)
            },
        },
{
}

/// A failure to judge is never dressed as a refusal: `AccessDenied` is
/// given only with the save-data root known and the path outside both
/// roots, and a failed search for that root is handed on as what it is,
/// with the root still unknown.
pub proof fn law_failures_are_handed_on(
    later: PathFilter,
    earlier: PathFilter,
    path: Seq<char>,
    denial: Seq<char>,
    r: Result<(), ITBError>,
)
    requires
        later.judged(earlier, path, denial, r),
    ensures
        r matches Err(e) ==> {
            &&& e.kind == ErrorKind::AccessDenied ==> later.save_root() is Some && !later.admits(
                path,
            ) && earlier.resolved(path) is Some
            &&& e.kind == ErrorKind::NoSaveDataLocation ==> later.save_root() is None
                && save_data_missing(e)
            &&& e.kind == ErrorKind::ResolutionError ==> unresolved(e)
            &&& e.kind != ErrorKind::NotFound && e.kind != ErrorKind::IoError
        },
{
}

/// With both roots known the sandbox says of every path that has a
/// canonical form whether it lies inside: `true` where the form lies within
/// a root, `false` where it lies outside both.
pub proof fn law_whitelisting_with_both_roots(
    later: PathFilter,
    earlier: PathFilter,
    path: Seq<char>,
    r: Result<bool, ITBError>,
)
    requires
        later.weighed(earlier, path, r),
        earlier.save_root() is Some,
        earlier.resolved(path) is Some,
    ensures
        r matches Ok(b) && b == earlier.admits(path),
        later.save_root() == earlier.save_root(),
{
}

/// What is reached from a root of the sandbox by plain names is said to
/// lie inside, whether or not anything is there on disk.
pub proof fn law_below_a_root_is_whitelisted(
    later: PathFilter,
    earlier: PathFilter,
    root: Seq<char>,
    names: Seq<Seq<char>>,
    r: Result<bool, ITBError>,
)
    requires
        earlier.wf(),
        root == earlier.game_root() || earlier.save_root() == Some(root),
        forall|i: int| 0 <= i < names.len() ==> plain_name(#[trigger] names[i]),
        later.weighed(earlier, joined_all(root, names), r),
    ensures
        r matches Ok(b) && b,
{
    law_below_a_root_is_admitted(earlier, root, names);
}

/// Whatever a request grants lies inside the sandbox: the path handed back
/// is canonical, and the sandbox admits it.
pub proof fn law_granted_is_inside(
    later: PathFilter,
    earlier: PathFilter,
    path: Seq<char>,
    denial: Seq<char>,
    r: Result<Seq<char>, ITBError>,
)
    requires
        later.granted(earlier, path, denial, r),
    ensures
        r matches Ok(p) ==> canonical(p) && later.admits(p),
{
}

/// Absence is a failure for reading and none for removing: reading what is
/// absent fails with `NotFound`, removing what is absent takes no step.
pub proof fn law_absence(path: Seq<char>, text: bool, step: StepView)
    ensures
        reading(path, false, text) matches Err(e) && e.0 == ErrorKind::NotFound,
        removing(step, false).len() == 0,
{
}

} // verus!
