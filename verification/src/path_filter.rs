//! The sandbox authority: it resolves paths and decides whether a resolved
//! path lies under the game root or under the save-data root.

use crate::error::{save_data_missing, unresolved, ErrorKind, ITBError};
use crate::paths::{
    anchor, anchored, canonical, is_canonical, is_within, join, joined, text_of, texts, within,
};
use crate::platform::{absolutize_from, absolutized, document_dir, path_exists, user_dirs};
use vstd::prelude::*;

verus! {

/// What is accepted of an absolutized path: the path itself where it is
/// canonical, nothing where it is not or where there is none.
pub open spec fn accepted(outcome: Option<Seq<char>>) -> Option<Seq<char>> {
    match outcome {
        Some(p) => if canonical(p) {
            Some(p)
        } else {
            None
        },
        None => None,
    }
}

/// The canonical form of a path, where it has one: a canonical path is its
/// own resolution, any other path resolves to what absolutizing it against
/// `base` gives, where that is a canonical path.
pub open spec fn resolved(path: Seq<char>, base: Seq<char>) -> Option<Seq<char>> {
    if canonical(path) {
        Some(path)
    } else {
        accepted(absolutized(path, base))
    }
}

/// The locations where save data is looked for, given what the system says
/// of the user: no locations where the user has no home directory, the
/// candidate locations otherwise, with or without a documents directory.
pub open spec fn locations_for(user: Option<Option<Seq<char>>>) -> Option<Seq<Seq<char>>> {
    match user {
        Some(documents) => Some(candidate_locations(documents)),
        None => None,
    }
}

/// The position of the first `true`, or the length where there is none.
pub open spec fn first_true(found: Seq<bool>) -> int
    decreases found.len(),
{
    if found.len() == 0 {
        0
    } else if found[0] {
        0
    } else {
        1 + first_true(found.drop_first())
    }
}

/// Whether `found` holds the outcomes of probing `count` locations in order
/// up to the first hit: every outcome before the last is a miss, and where
/// the outcomes stop short of the locations, the last is a hit.
pub open spec fn stopped_at_first_hit(found: Seq<bool>, count: int) -> bool {
    &&& found.len() <= count
    &&& forall|j: int| 0 <= j < found.len() - 1 ==> !found[j]
    &&& found.len() < count ==> found.len() > 0 && found.last()
}

/// The locations where save data is looked for, in the order in which they
/// are tried, given the user's documents directory where there is one.
pub open spec fn candidate_locations(documents: Option<Seq<char>>) -> Seq<Seq<char>> {
    let fixed = seq!["./../../steamapps/compatdata/590380/pfx/"@, "./user"@];
    match documents {
        Some(d) => seq![joined(d, "My Games/Into The Breach"@)] + fixed,
        None => fixed,
    }
}

/// What the system says of the user, by its text.
pub open spec fn user_text(user: Option<Option<String>>) -> Option<Option<Seq<char>>> {
    match user {
        Some(documents) => Some(text_of(documents)),
        None => None,
    }
}

/// The outcome of a call with what it returned left out.
pub open spec fn verdict<T>(r: Result<T, ITBError>) -> Result<(), ITBError> {
    match r {
        Ok(_) => Ok(()),
        Err(e) => Err(e),
    }
}

/// The outcome of a call with what it returned taken by its view.
pub open spec fn seen<T: View>(r: Result<T, ITBError>) -> Result<T::V, ITBError> {
    match r {
        Ok(v) => Ok(v@),
        Err(e) => Err(e),
    }
}

/// The sandbox: the game root, fixed when the sandbox is made, and the
/// save-data root, found on first need and kept from then on.
pub struct PathFilter {
    game_root: String,
    save_data_root: Option<String>,
}

impl PathFilter {
    /// The game root.
    pub closed spec fn game_root(&self) -> Seq<char> {
        self.game_root@
    }

    /// The save-data root, once it has been found.
    pub closed spec fn save_root(&self) -> Option<Seq<char>> {
        text_of(self.save_data_root)
    }

    /// Both roots are canonical.
    #[verifier::type_invariant]
    pub open spec fn wf(&self) -> bool {
        &&& canonical(self.game_root())
        &&& self.save_root() matches Some(s) ==> canonical(s)
    }

    /// The canonical form of a path, where it has one, relative paths
    /// starting at the game root.
    pub open spec fn resolved(&self, path: Seq<char>) -> Option<Seq<char>> {
        resolved(path, self.game_root())
    }

    /// Whether a canonical path lies within the save-data root, which is
    /// known.
    pub open spec fn save_root_holds(&self, target: Seq<char>) -> bool {
        self.save_root() matches Some(s) && within(target, s)
    }

    /// Whether the save-data root is known and a canonical path lies outside
    /// it.
    pub open spec fn save_root_excludes(&self, target: Seq<char>) -> bool {
        self.save_root() matches Some(s) && !within(target, s)
    }

    /// Whether the sandbox admits a path: the path has a canonical form, and
    /// that form lies within the game root or within the save-data root.
    pub open spec fn admits(&self, path: Seq<char>) -> bool {
        self.resolved(path) matches Some(t) && (within(t, self.game_root())
            || self.save_root_holds(t))
    }

    /// Whether this sandbox is a later state of `earlier`: the game root is
    /// the same, and a save-data root that was known is still the same.
    pub open spec fn extends(&self, earlier: PathFilter) -> bool {
        &&& self.game_root() == earlier.game_root()
        &&& earlier.save_root() is Some ==> self.save_root() == earlier.save_root()
    }

    /// Whether the sandbox can judge a path from what it holds, without a
    /// search for the save-data root: the path has a canonical form, and
    /// that form lies within the game root or the save-data root is known.
    pub open spec fn settles(&self, path: Seq<char>) -> bool {
        self.resolved(path) matches Some(t) && (within(t, self.game_root())
            || self.save_root() is Some)
    }

    /// Whether the verdict on a path can no longer change: the sandbox
    /// admits the path, or it knows both roots.
    pub open spec fn fixed(&self, path: Seq<char>) -> bool {
        self.admits(path) || self.save_root() is Some
    }

    /// What holds once the sandbox, then in the state `earlier`, has said
    /// whether a path lies inside and answered `r`.
    ///
    /// - A path without a canonical form is a failure to resolve it, and
    ///   nothing is searched.
    /// - A path whose canonical form lies within the game root is inside,
    ///   and nothing is searched.
    /// - For any other path the save-data root is needed. With that root
    ///   known, before or after a search, the answer is whether the
    ///   canonical form lies within it. A failure is given only where the
    ///   search found no root, and it is the failure of that search.
    pub open spec fn weighed(
        &self,
        earlier: PathFilter,
        path: Seq<char>,
        r: Result<bool, ITBError>,
    ) -> bool {
        &&& self.extends(earlier)
        &&& match earlier.resolved(path) {
            None => r matches Err(e) && unresolved(e) && self.save_root() == earlier.save_root(),
            Some(t) => if within(t, earlier.game_root()) {
                r matches Ok(b) && b && self.save_root() == earlier.save_root()
            } else {
                match r {
                    Ok(b) => self.save_root() is Some && b == self.save_root_holds(t),
                    Err(e) => (save_data_missing(e) || unresolved(e)) && self.save_root() is None,
                }
            },
        }
    }

    /// What holds once the sandbox, then in the state `earlier`, has judged
    /// a path and answered `r`: what `weighed` says, with a path that lies
    /// outside refused. The refusal is `AccessDenied` with the message
    /// `denial`, and it is given only with both roots known and the
    /// canonical form outside both.
    pub open spec fn judged(
        &self,
        earlier: PathFilter,
        path: Seq<char>,
        denial: Seq<char>,
        r: Result<(), ITBError>,
    ) -> bool {
        &&& self.extends(earlier)
        &&& match earlier.resolved(path) {
            None => r matches Err(e) && unresolved(e) && self.save_root() == earlier.save_root(),
            Some(t) => if within(t, earlier.game_root()) {
                r is Ok && self.save_root() == earlier.save_root()
            } else {
                match r {
                    Ok(_) => self.save_root_holds(t),
                    Err(e) => {
                        ||| e@ == (ErrorKind::AccessDenied, denial) && self.save_root_excludes(t)
                        ||| (save_data_missing(e) || unresolved(e)) && self.save_root() is None
                    },
                }
            },
        }
    }

    /// What holds once the sandbox, then in the state `earlier`, has been
    /// asked to let pass a path as a host wrote it and answered `r`. An
    /// empty path is refused as unresolvable, and nothing is searched. Any
    /// other path is anchored and judged.
    pub open spec fn requested(
        &self,
        earlier: PathFilter,
        path: Seq<char>,
        denial: Seq<char>,
        r: Result<(), ITBError>,
    ) -> bool {
        &&& self.extends(earlier)
        &&& if path.len() == 0 {
            &&& r matches Err(e) && e@ == (ErrorKind::ResolutionError, "The path is empty"@)
            &&& self.save_root() == earlier.save_root()
        } else {
            self.judged(earlier, anchored(path), denial, verdict(r))
        }
    }

    /// What holds once the sandbox, then in the state `earlier`, has been
    /// asked for a path as a host wrote it and answered `r`: what
    /// `requested` says, and where the path passes, the answer is its
    /// canonical form.
    pub open spec fn granted(
        &self,
        earlier: PathFilter,
        path: Seq<char>,
        denial: Seq<char>,
        r: Result<Seq<char>, ITBError>,
    ) -> bool {
        &&& self.requested(earlier, path, denial, verdict(r))
        &&& r matches Ok(p) ==> earlier.resolved(anchored(path)) == Some(p)
    }

    /// Makes a sandbox around a game directory. A canonical directory is
    /// taken as it is; any other has to start at the root and is resolved.
    pub fn new(game_directory: &str) -> (r: Result<PathFilter, ITBError>)
        ensures
            match r {
                Ok(f) => {
                    &&& f.wf()
                    &&& resolved(game_directory@, game_directory@) == Some(f.game_root())
                    &&& f.save_root() is None
                },
                Err(e) => if game_directory@.len() > 0 && game_directory@[0] == '/' {
                    unresolved(e) && resolved(game_directory@, game_directory@) is None
                } else {
                    e@ == (ErrorKind::ResolutionError, "The game directory is not absolute"@)
                },
            },
            game_directory@.len() == 0 || game_directory@[0] != '/' ==> r is Err,
    {
        if is_canonical(game_directory) {
            return Ok(
                PathFilter { game_root: String::from_str(game_directory), save_data_root: None },
            );
        }
        if game_directory.unicode_len() == 0 || game_directory.get_char(0) != '/' {
            return Err(
                ITBError::new(ErrorKind::ResolutionError, "The game directory is not absolute"),
            );
        }
        match Self::checked(absolutize_from(game_directory, game_directory)) {
            Ok(root) => Ok(PathFilter { game_root: root, save_data_root: None }),
            Err(e) => Err(e),
        }
    }

    /// Accepts what absolutizing gave, where it gave a canonical path.
    pub fn checked(outcome: Option<String>) -> (r: Result<String, ITBError>)
        ensures
            match r {
                Ok(p) => outcome == Some(p) && accepted(text_of(outcome)) == Some(p@),
                Err(e) => unresolved(e) && accepted(text_of(outcome)) is None,
            },
    {
        match outcome {
            Some(p) => {
                if is_canonical(p.as_str()) {
                    Ok(p)
                } else {
                    Err(ITBError::new(ErrorKind::ResolutionError, "The path could not be resolved"))
                }
            },
            None => Err(
                ITBError::new(ErrorKind::ResolutionError, "The path could not be resolved"),
            ),
        }
    }

    /// The game root.
    pub fn game_directory(&self) -> (r: String)
        ensures
            r@ == self.game_root(),
            canonical(r@),
    {
        proof {
            use_type_invariant(self);
        }
        self.game_root.clone()
    }

    /// The save-data root, where it has been found already.
    pub fn known_save_data_directory(&self) -> (r: Option<String>)
        ensures
            text_of(r) == self.save_root(),
    {
        match &self.save_data_root {
            Some(s) => Some(s.clone()),
            None => None,
        }
    }

    /// Brings a path into canonical absolute form. A canonical path is
    /// returned as it is; any other is absolutized, relative paths starting
    /// at the game root.
    pub fn absolutize(&self, path: &str) -> (r: Result<String, ITBError>)
        ensures
            match r {
                Ok(p) => self.resolved(path@) == Some(p@) && canonical(p@),
                Err(e) => unresolved(e) && self.resolved(path@) is None,
            },
    {
        proof {
            use_type_invariant(self);
        }
        if is_canonical(path) {
            return Ok(String::from_str(path));
        }
        Self::checked(absolutize_from(path, self.game_root.as_str()))
    }

    /// The locations where save data is looked for, in the order in which
    /// they are tried: the game's folder under the user's documents, where
    /// the user has a documents directory; the folder that a compatibility
    /// layer provides, two levels above the game root; and the `user` folder
    /// of the game root itself.
    pub fn save_data_candidates(documents: Option<&str>) -> (r: Vec<String>)
        ensures
            texts(r@) == candidate_locations(
                match documents {
                    Some(d) => Some(d@),
                    None => None,
                },
            ),
    {
        let mut candidates: Vec<String> = Vec::new();
        if let Some(d) = documents {
            candidates.push(join(d, "My Games/Into The Breach"));
        }
        candidates.push(String::from_str("./../../steamapps/compatdata/590380/pfx/"));
        candidates.push(String::from_str("./user"));
        assert(texts(candidates@) =~= candidate_locations(
            match documents {
                Some(d) => Some(d@),
                None => None,
            },
        ));
        candidates
    }

    /// The locations to probe, given what the system says of the user: the
    /// outer `None` says that the user has no home directory, and then
    /// there is nowhere to look; the inner one says that the user has no
    /// documents directory, and then the candidates go without it.
    pub fn locations_for_user(user: Option<Option<String>>) -> (r: Result<Vec<String>, ITBError>)
        ensures
            match r {
                Ok(locations) => locations_for(user_text(user)) == Some(texts(locations@)),
                Err(e) => locations_for(user_text(user)) is None && e@ == (
                    ErrorKind::NoSaveDataLocation,
                    "Couldn't retrieve valid home directory path from the operating system"@,
                ),
            },
    {
        match user {
            Some(Some(documents)) => Ok(Self::save_data_candidates(Some(documents.as_str()))),
            Some(None) => Ok(Self::save_data_candidates(None)),
            None => Err(
                ITBError::new(
                    ErrorKind::NoSaveDataLocation,
                    "Couldn't retrieve valid home directory path from the operating system",
                ),
            ),
        }
    }

    /// The path of the marker file of a directory.
    pub fn marker_path(directory: &str) -> (r: String)
        ensures
            r@ == joined(directory@, "io_test.txt"@),
    {
        join(directory, "io_test.txt")
    }

    /// Whether a directory holds the marker file, which shows that it is a
    /// save-data location. The answer is what the disk says at this moment.
    pub fn is_save_data_location_valid(path: &str) -> bool {
        let marker = Self::marker_path(path);
        path_exists(marker.as_str())
    }

    /// The position of the first location that was found marked.
    pub fn first_marked(found: &Vec<bool>) -> (r: Option<usize>)
        ensures
            match r {
                Some(i) => i == first_true(found@) && i < found.len(),
                None => first_true(found@) == found.len(),
            },
    {
        let mut i: usize = 0;
        proof {
            assert(found@.subrange(0, found.len() as int) =~= found@);
        }
        while i < found.len()
            invariant
                i <= found.len(),
                first_true(found@) == i + first_true(found@.subrange(i as int, found.len() as int)),
            decreases found.len() - i,
        {
            let ghost rest = found@.subrange(i as int, found.len() as int);
            assert(rest[0] == found@[i as int]);
            if found[i] {
                return Some(i);
            }
            assert(rest.drop_first() =~= found@.subrange(i + 1, found.len() as int));
            i = i + 1;
        }
        None
    }

    /// Takes a location as the save-data root, unless a root is known
    /// already: a known root is never replaced. The location is resolved
    /// before it is kept.
    pub fn adopt_save_data_root(&mut self, location: &str) -> (r: Result<String, ITBError>)
        ensures
            final(self).extends(*old(self)),
            old(self).save_root() matches Some(s) ==> (r matches Ok(d) && d@ == s),
            old(self).save_root() is None ==> match old(self).resolved(location@) {
                Some(t) => final(self).save_root() == Some(t) && (r matches Ok(d) && d@ == t),
                None => final(self).save_root() is None && (r matches Err(e) && unresolved(e)),
            },
    {
        if let Some(known) = &self.save_data_root {
            return Ok(known.clone());
        }
        match self.absolutize(location) {
            Ok(root) => {
                proof {
                    use_type_invariant(&*self);
                }
                self.save_data_root = Some(root.clone());
                Ok(root)
            },
            Err(e) => Err(e),
        }
    }

    /// Settles the save-data root from the outcome of the probes: the first
    /// location that was found marked becomes the root. `found` holds the
    /// outcomes in the order of the locations, and may stop short of them.
    pub fn select_save_data_root(&mut self, locations: &Vec<String>, found: &Vec<bool>) -> (r:
        Result<String, ITBError>)
        ensures
            final(self).extends(*old(self)),
            old(self).save_root() matches Some(s) ==> (r matches Ok(d) && d@ == s),
            old(self).save_root() is None ==> {
                let k = first_true(found@);
                if k < found.len() && k < locations.len() {
                    match old(self).resolved(locations[k]@) {
                        Some(t) => final(self).save_root() == Some(t) && (r matches Ok(d) && d@
                            == t),
                        None => final(self).save_root() is None && (r matches Err(e)
                            && unresolved(e)),
                    }
                } else {
                    r matches Err(e) && e@ == (
                        ErrorKind::NoSaveDataLocation,
                        "Could not find a valid save data location"@,
                    ) && final(self).save_root() is None
                }
            },
    {
        if let Some(known) = &self.save_data_root {
            return Ok(known.clone());
        }
        match Self::first_marked(found) {
            Some(i) => {
                if i < locations.len() {
                    return self.adopt_save_data_root(locations[i].as_str());
                }
            },
            None => {},
        }
        Err(
            ITBError::new(
                ErrorKind::NoSaveDataLocation,
                "Could not find a valid save data location",
            ),
        )
    }

    /// Probes the locations in order, each taken from the game root, and
    /// stops at the first that holds the marker file: the outcomes are
    /// misses up to the last, and they stop short of the locations only at
    /// a hit.
    fn probe(&self, locations: &Vec<String>) -> (found: Vec<bool>)
        ensures
            stopped_at_first_hit(found@, locations.len() as int),
    {
        let mut found: Vec<bool> = Vec::new();
        let mut i: usize = 0;
        while i < locations.len()
            invariant
                i <= locations.len(),
                found.len() == i,
                forall|j: int| 0 <= j < i ==> !found@[j],
            decreases locations.len() - i,
        {
            let location = join(self.game_root.as_str(), locations[i].as_str());
            let hit = Self::is_save_data_location_valid(location.as_str());
            found.push(hit);
            if hit {
                return found;
            }
            i = i + 1;
        }
        found
    }

    /// The save-data root. A root that is known is returned as it is and
    /// nothing is probed; otherwise the candidate locations are probed in
    /// order and the first that holds the marker file is resolved and kept.
    pub fn save_data_directory(&mut self) -> (r: Result<String, ITBError>)
        ensures
            final(self).extends(*old(self)),
            old(self).save_root() matches Some(s) ==> (r matches Ok(d) && d@ == s),
            match r {
                Ok(d) => final(self).save_root() == Some(d@) && canonical(d@),
                Err(e) => {
                    &&& save_data_missing(e) || unresolved(e)
                    &&& final(self).save_root() is None
                },
            },
    {
        proof {
            use_type_invariant(&*self);
        }
        if let Some(known) = &self.save_data_root {
            return Ok(known.clone());
        }
        let user = match user_dirs() {
            Some(dirs) => Some(document_dir(&dirs)),
            None => None,
        };
        let locations = match Self::locations_for_user(user) {
            Ok(locations) => locations,
            Err(e) => {
                return Err(e);
            },
        };
        let found = self.probe(&locations);
        let r = self.select_save_data_root(&locations, &found);
        proof {
            use_type_invariant(&*self);
        }
        r
    }

    /// Whether a path lies inside the sandbox. The path is resolved first.
    /// The save-data root is looked for only where the path is not within
    /// the game root, and a failure to find it is a failure of the call, not
    /// a `false`.
    pub fn is_whitelisted(&mut self, path: &str) -> (r: Result<bool, ITBError>)
        ensures
            final(self).weighed(*old(self), path@, r),
            r matches Ok(b) ==> b == final(self).admits(path@),
    {
        let resolved = match self.absolutize(path) {
            Ok(p) => p,
            Err(e) => {
                return Err(e);
            },
        };
        if is_within(resolved.as_str(), self.game_root.as_str()) {
            return Ok(true);
        }
        let save = match self.save_data_directory() {
            Ok(s) => s,
            Err(e) => {
                return Err(e);
            },
        };
        Ok(is_within(resolved.as_str(), save.as_str()))
    }

    /// Lets a path pass where the sandbox admits it, and fails with
    /// `AccessDenied` and the given message where it does not.
    pub fn authorize(&mut self, path: &str, denial: &str) -> (r: Result<(), ITBError>)
        ensures
            final(self).judged(*old(self), path@, denial@, r),
    {
        match self.is_whitelisted(path) {
            Ok(true) => Ok(()),
            Ok(false) => Err(ITBError::new(ErrorKind::AccessDenied, denial)),
            Err(e) => Err(e),
        }
    }

    /// Takes a path as a host wrote it and gives its canonical form, where
    /// the sandbox admits it: the path is anchored at the game root where it
    /// begins with a bare name, resolved, and judged.
    pub fn request(&mut self, path: &str, denial: &str) -> (r: Result<String, ITBError>)
        ensures
            final(self).granted(*old(self), path@, denial@, seen(r)),
    {
        if path.unicode_len() == 0 {
            return Err(ITBError::new(ErrorKind::ResolutionError, "The path is empty"));
        }
        let anchored_path = anchor(path);
        let target = match self.absolutize(anchored_path.as_str()) {
            Ok(p) => p,
            Err(e) => {
                return Err(e);
            },
        };
        match self.authorize(target.as_str(), denial) {
            Ok(_) => Ok(target),
            Err(e) => Err(e),
        }
    }
}

/// The paths among `paths` that the sandbox admits, in their order.
pub open spec fn kept(paths: Seq<Seq<char>>, filter: PathFilter) -> Seq<Seq<char>>
    decreases paths.len(),
{
    if paths.len() == 0 {
        Seq::<Seq<char>>::empty()
    } else if filter.admits(paths.last()) {
        kept(paths.drop_last(), filter).push(paths.last())
    } else {
        kept(paths.drop_last(), filter)
    }
}

/// A verdict that is fixed stays as it is in every later state of the
/// sandbox.
pub proof fn lemma_fixed_stays(earlier: PathFilter, later: PathFilter, path: Seq<char>)
    requires
        later.extends(earlier),
        earlier.fixed(path),
    ensures
        later.fixed(path),
        later.admits(path) == earlier.admits(path),
{
}

/// Two sandboxes that agree on every path of a list keep the same paths.
pub proof fn lemma_kept_alike(paths: Seq<Seq<char>>, f: PathFilter, g: PathFilter)
    requires
        forall|j: int| 0 <= j < paths.len() ==> f.admits(#[trigger] paths[j]) == g.admits(paths[j]),
    ensures
        kept(paths, f) == kept(paths, g),
    decreases paths.len(),
{
    if paths.len() > 0 {
        let front = paths.drop_last();
        assert forall|j: int| 0 <= j < front.len() implies f.admits(#[trigger] front[j])
            == g.admits(front[j]) by {
            assert(front[j] == paths[j]);
        }
        lemma_kept_alike(front, f, g);
    }
}

/// Every path that is kept is one of the paths.
pub proof fn lemma_kept_among(paths: Seq<Seq<char>>, filter: PathFilter)
    ensures
        forall|j: int|
            0 <= j < kept(paths, filter).len() ==> paths.contains(
                #[trigger] kept(paths, filter)[j],
            ),
    decreases paths.len(),
{
    if paths.len() > 0 {
        let front = paths.drop_last();
        let before = kept(front, filter);
        lemma_kept_among(front, filter);
        assert forall|j: int| 0 <= j < kept(paths, filter).len() implies paths.contains(
            #[trigger] kept(paths, filter)[j],
        ) by {
            if j < before.len() {
                assert(kept(paths, filter)[j] == before[j]);
                let k = choose|k: int| 0 <= k < front.len() && front[k] == before[j];
                assert(paths[k] == before[j]);
            } else {
                assert(kept(paths, filter)[j] == paths[paths.len() - 1]);
            }
        }
    }
}

/// Every path that is kept is admitted.
pub proof fn lemma_kept_admitted(paths: Seq<Seq<char>>, filter: PathFilter)
    ensures
        forall|j: int| 0 <= j < kept(paths, filter).len() ==> filter.admits(
            #[trigger] kept(paths, filter)[j],
        ),
    decreases paths.len(),
{
    if paths.len() > 0 {
        let front = kept(paths.drop_last(), filter);
        lemma_kept_admitted(paths.drop_last(), filter);
        assert forall|j: int| 0 <= j < kept(paths, filter).len() implies filter.admits(
            #[trigger] kept(paths, filter)[j],
        ) by {
            if j < front.len() {
                assert(kept(paths, filter)[j] == front[j]);
            }
        }
    }
}

/// Judges each path of a list and keeps those that the sandbox admits, in
/// their order. A path that cannot be judged ends the call with its failure.
pub fn admitted(filter: &mut PathFilter, paths: &Vec<String>) -> (r: Result<Vec<String>, ITBError>)
    ensures
        final(filter).extends(*old(filter)),
        match r {
            Ok(v) => texts(v@) == kept(texts(paths@), *final(filter)),
            Err(e) => {
                ||| unresolved(e)
                ||| save_data_missing(e) && old(filter).save_root() is None
                    && final(filter).save_root() is None
            },
        },
        (forall|j: int| 0 <= j < paths.len() ==> old(filter).settles(#[trigger] paths[j]@))
            ==> r is Ok,
        r is Ok ==> forall|j: int|
            0 <= j < paths.len() ==> old(filter).resolved(#[trigger] paths[j]@) is Some,
{
    let mut out: Vec<String> = Vec::new();
    let mut i: usize = 0;
    proof {
        assert(texts(paths@).subrange(0, 0) =~= Seq::<Seq<char>>::empty());
        assert(texts(out@) =~= Seq::<Seq<char>>::empty());
    }
    while i < paths.len()
        invariant
            i <= paths.len(),
            filter.extends(*old(filter)),
            forall|j: int| 0 <= j < i ==> filter.fixed(#[trigger] texts(paths@)[j]),
            forall|j: int| 0 <= j < i ==> old(filter).resolved(#[trigger] paths[j]@) is Some,
            texts(out@) == kept(texts(paths@).subrange(0, i as int), *filter),
        decreases paths.len() - i,
    {
        let ghost before = *filter;
        let ghost done = texts(paths@).subrange(0, i as int);
        let ghost next = texts(paths@).subrange(0, i + 1);
        let verdict = filter.is_whitelisted(paths[i].as_str());
        proof {
            assert(next.drop_last() =~= done);
            assert(next.last() == paths[i as int]@);
            assert forall|j: int| 0 <= j < done.len() implies before.admits(#[trigger] done[j])
                == filter.admits(done[j]) by {
                assert(done[j] == texts(paths@)[j]);
                lemma_fixed_stays(before, *filter, done[j]);
            }
            lemma_kept_alike(done, before, *filter);
            assert forall|j: int| 0 <= j < i implies filter.fixed(#[trigger] texts(paths@)[j]) by {
                lemma_fixed_stays(before, *filter, texts(paths@)[j]);
            }
            if before.settles(paths[i as int]@) {
                assert(verdict is Ok);
            }
        }
        match verdict {
            Err(e) => {
                proof {
                    if forall|j: int|
                        0 <= j < paths.len() ==> old(filter).settles(#[trigger] paths[j]@) {
                        assert(old(filter).settles(paths[i as int]@));
                        assert(before.settles(paths[i as int]@));
                    }
                }
                return Err(e);
            },
            Ok(b) => {
                if b {
                    let ghost earlier = texts(out@);
                    out.push(paths[i].clone());
                    assert(texts(out@) =~= earlier.push(paths[i as int]@));
                }
            },
        }
        i = i + 1;
    }
    proof {
        assert(texts(paths@).subrange(0, paths.len() as int) =~= texts(paths@));
    }
    Ok(out)
}

} // verus!
