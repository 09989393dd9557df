//! Matching of directory entries to bricks.
//!
//! A brick's dump is named `glusterfsd_<name>.dump`. The name between the
//! prefix and the suffix identifies the brick and the volume it serves; an
//! entry counts only if that name is one of the known ones.

use crate::error::CollectError;
use crate::text::{chars_of, matches_at, occurs_at, string_of_range};
use vstd::prelude::*;

verus! {

/// One entry of the stats directory.
pub struct StatsFileEntry {
    /// Where the file lies.
    pub path: String,
    /// The entry's base name.
    pub raw_name: String,
}

/// The plain values of a `StatsFileEntry`.
pub struct EntryModel {
    pub path: Seq<char>,
    pub raw_name: Seq<char>,
}

impl View for StatsFileEntry {
    type V = EntryModel;

    open spec fn view(&self) -> EntryModel {
        EntryModel { path: self.path@, raw_name: self.raw_name@ }
    }
}

/// The brick and the volume that a dump belongs to.
pub struct Identity {
    pub volume_name: String,
    pub brick_name: String,
}

/// A directory entry that is the dump of a known brick.
pub struct MatchedFile {
    pub entry: StatsFileEntry,
    pub identity: Identity,
}

/// The plain values of a `MatchedFile`.
pub struct MatchModel {
    pub entry: EntryModel,
    pub volume_name: Seq<char>,
    pub brick_name: Seq<char>,
}

impl View for MatchedFile {
    type V = MatchModel;

    open spec fn view(&self) -> MatchModel {
        MatchModel {
            entry: self.entry@,
            volume_name: self.identity.volume_name@,
            brick_name: self.identity.brick_name@,
        }
    }
}

/// What every dump's name starts with.
pub open spec fn dump_prefix() -> Seq<char> {
    "glusterfsd_"@
}

/// What every dump's name ends with.
pub open spec fn dump_suffix() -> Seq<char> {
    ".dump"@
}

/// The plain values of `files`.
pub open spec fn match_models(files: Seq<MatchedFile>) -> Seq<MatchModel> {
    files.map_values(|f: MatchedFile| f@)
}

/// The name that stands between the prefix and the suffix of `raw_name`;
/// `None` where `raw_name` lacks either, or holds nothing between them.
pub open spec fn identity_of(raw_name: Seq<char>) -> Option<Seq<char>> {
    let from = dump_prefix().len() as int;
    let to = raw_name.len() - dump_suffix().len();
    if from < to && occurs_at(raw_name, dump_prefix(), 0) && occurs_at(raw_name, dump_suffix(), to) {
        Some(raw_name.subrange(from, to))
    } else {
        None
    }
}

/// The names that `known` lists.
pub open spec fn names_of(known: Seq<String>) -> Set<Seq<char>> {
    Set::new(|name: Seq<char>| exists|i: int| 0 <= i < known.len() && #[trigger] known[i]@ == name)
}

/// An entry named `raw_name` is the dump of one of the `known` bricks.
pub open spec fn accepts(known: Set<Seq<char>>, raw_name: Seq<char>) -> bool {
    identity_of(raw_name) matches Some(name) && known.contains(name)
}

/// The match that the entry `entry` makes under the name `name`: the brick
/// and its volume both go by that name.
pub open spec fn match_of(entry: EntryModel, name: Seq<char>) -> MatchModel {
    MatchModel { entry, volume_name: name, brick_name: name }
}

/// The entries of `listing` that could be read and that `known` accepts, each
/// with its identity, in the order of the listing. An entry that could not be
/// read is `None`.
pub open spec fn matched(listing: Seq<Option<StatsFileEntry>>, known: Set<Seq<char>>) -> Seq<
    MatchModel,
>
    decreases listing.len(),
{
    if listing.len() == 0 {
        Seq::empty()
    } else {
        let before = matched(listing.drop_last(), known);
        match listing.last() {
            Some(entry) => if accepts(known, entry.raw_name@) {
                before.push(match_of(entry@, identity_of(entry.raw_name@)->0))
            } else {
                before
            },
            None => before,
        }
    }
}

/// Every match has a name, and that name is a known one.
pub open spec fn named(files: Seq<MatchModel>, known: Set<Seq<char>>) -> bool {
    forall|i: int|
        0 <= i < files.len() ==> {
            &&& (#[trigger] files[i]).volume_name.len() > 0
            &&& files[i].brick_name == files[i].volume_name
            &&& known.contains(files[i].volume_name)
            &&& identity_of(files[i].entry.raw_name) == Some(files[i].volume_name)
        }
}

/// What the matcher picks is named.
pub proof fn lemma_matched_named(listing: Seq<Option<StatsFileEntry>>, known: Set<Seq<char>>)
    ensures
        named(matched(listing, known), known),
    decreases listing.len(),
{
    if listing.len() > 0 {
        lemma_matched_named(listing.drop_last(), known);
    }
}

/// The name that a dump's file name carries.
pub fn derive_name(raw_name: &str) -> (r: Option<String>)
    ensures
        match r {
            Some(name) => identity_of(raw_name@) == Some(name@),
            None => identity_of(raw_name@) is None,
        },
{
    let text = chars_of(raw_name);
    let prefix = chars_of("glusterfsd_");
    let suffix = chars_of(".dump");
    if text.len() < suffix.len() {
        return None;
    }
    let to: usize = text.len() - suffix.len();
    if prefix.len() < to && matches_at(&text, &prefix, 0) && matches_at(&text, &suffix, to) {
        Some(string_of_range(&text, prefix.len(), to))
    } else {
        None
    }
}

/// The identity that a dump's file name carries: the brick and its volume
/// both go by the name between the prefix and the suffix.
pub fn derive_identity(raw_name: &str) -> (r: Option<Identity>)
    ensures
        match r {
            Some(id) => identity_of(raw_name@) == Some(id.volume_name@) && id.brick_name@
                == id.volume_name@,
            None => identity_of(raw_name@) is None,
        },
{
    match derive_name(raw_name) {
        Some(name) => Some(Identity { volume_name: name.clone(), brick_name: name }),
        None => None,
    }
}

/// Whether `known` lists `name`.
pub fn is_known(known: &Vec<String>, name: &String) -> (r: bool)
    ensures
        r == names_of(known@).contains(name@),
{
    let mut i: usize = 0;
    while i < known.len()
        invariant
            i <= known.len(),
            forall|j: int| 0 <= j < i ==> known@[j]@ != name@,
        decreases known.len() - i,
    {
        if known[i] == *name {
            return true;
        }
        i += 1;
    }
    false
}

/// Picks from `listing` the dumps of the `known` bricks, each with its
/// identity. Entries that could not be read, names that are no dump's, and
/// dumps of other bricks are left out; the rest keep their order.
pub fn match_entries(listing: &Vec<Option<StatsFileEntry>>, known: &Vec<String>) -> (r: Vec<
    MatchedFile,
>)
    ensures
        match_models(r@) == matched(listing@, names_of(known@)),
        named(match_models(r@), names_of(known@)),
{
    let mut r: Vec<MatchedFile> = Vec::new();
    let mut i: usize = 0;
    assert(listing@.take(0) == Seq::<Option<StatsFileEntry>>::empty());
    while i < listing.len()
        invariant
            i <= listing.len(),
            match_models(r@) == matched(listing@.take(i as int), names_of(known@)),
        decreases listing.len() - i,
    {
        let ghost before = match_models(r@);
        assert(listing@.take(i + 1).drop_last() == listing@.take(i as int));
        assert(listing@.take(i + 1).last() == listing@[i as int]);
        if let Some(entry) = &listing[i] {
            if let Some(identity) = derive_identity(entry.raw_name.as_str()) {
                if is_known(known, &identity.volume_name) {
                    let ghost name = identity.volume_name@;
                    r.push(
                        MatchedFile {
                            entry: StatsFileEntry {
                                path: entry.path.clone(),
                                raw_name: entry.raw_name.clone(),
                            },
                            identity,
                        },
                    );
                    assert(match_models(r@) == before.push(match_of(entry@, name)));
                }
            }
        }
        i += 1;
    }
    assert(listing@.take(listing.len() as int) == listing@);
    proof {
        lemma_matched_named(listing@, names_of(known@));
    }
    r
}

/// What a scan of the stats directory yields: the matches of its listing, or
/// `DirectoryUnavailable` where the directory could not be listed.
pub open spec fn scan_outcome(listing: Option<Vec<Option<StatsFileEntry>>>, known: Set<Seq<char>>) -> Result<
    Seq<MatchModel>,
    CollectError,
> {
    match listing {
        Some(entries) => Ok(matched(entries@, known)),
        None => Err(CollectError::DirectoryUnavailable),
    }
}

/// The plain values of what a scan yielded.
pub open spec fn matches_of(scanned: Result<Vec<MatchedFile>, CollectError>) -> Result<
    Seq<MatchModel>,
    CollectError,
> {
    match scanned {
        Ok(files) => Ok(match_models(files@)),
        Err(e) => Err(e),
    }
}

/// Matches what the stats directory lists against the `known` bricks.
/// `listing` is `None` where the directory could not be listed, and holds
/// `None` for each entry that could not be read.
pub fn match_listing(listing: &Option<Vec<Option<StatsFileEntry>>>, known: &Vec<String>) -> (r: Result<
    Vec<MatchedFile>,
    CollectError,
>)
    ensures
        matches_of(r) == scan_outcome(*listing, names_of(known@)),
        r matches Ok(files) ==> named(match_models(files@), names_of(known@)),
{
    match listing {
        Some(entries) => Ok(match_entries(entries, known)),
        None => Err(CollectError::DirectoryUnavailable),
    }
}

} // verus!
