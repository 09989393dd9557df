//! Decoding of one brick dump into its two counter sets.
//!
//! A dump holds two JSON objects written back to back: the aggregate counters
//! and the per-translator ones. Nothing separates them but the closing brace
//! of the first, a newline and the opening brace of the second. The dump is
//! cut at that boundary, each half gets its brace back, and gluster's own
//! decoder reads each half.
//!
//! The cut knows nothing of JSON: a dump whose text holds the boundary a
//! second time, be it inside a quoted name, is rejected as malformed.
//!
//! A half that could send the decoder's arithmetic out of range is not
//! handed to it; it is malformed. See the module `decodable`.

use crate::counters::{
    counters_from_pairs, distinct_names, inserted_all, map_of, pairs_model, CounterSet,
};
use crate::error::CollectError;
use crate::decodable::{decodable, is_decodable};
use crate::text::{chars_of, matches_at, occurs_at, push_char, push_range, string_of_range};
use vstd::prelude::*;
use vstd::string::StringExecFns;

verus! {

/// Makes `gluster::GlusterError` known as a type. Nothing is read from a
/// value of it: any error of the decoder means that the dump is malformed.
#[verifier::external_type_specification]
#[verifier::external_body]
pub struct ExGlusterError(gluster::GlusterError);

/// The counters that `gluster::fop::read_aggr_fop` decodes from `json` for the
/// brick `filename`, each count converted with `as i64`, which cuts it to its
/// integer part; `None` where the decoder reports an error.
pub uninterp spec fn aggr_fop_counts(json: Seq<char>, filename: Seq<char>) -> Option<Map<Seq<char>, int>>;

/// The counters that `gluster::fop::read_inter_fop` decodes from `json` for
/// the brick `filename`, each count converted with `as i64`, which cuts it to
/// its integer part; `None` where the decoder reports an error.
pub uninterp spec fn inter_fop_counts(json: Seq<char>, filename: Seq<char>) -> Option<Map<Seq<char>, int>>;

/// Decodes the aggregate half of a dump.
///
/// Trusted: the body calls `gluster::fop::read_aggr_fop`, which removes every
/// `gluster.brick.<filename>.aggr.` from the text and reads what is left as a
/// JSON object whose values are numbers, written as such or as quoted text.
/// The contract claims only that the outcome is a function of the two
/// arguments, named `aggr_fop_counts`: the pairs handed back are that map's
/// entries in the order in which the hash map gave them, each count converted
/// with `as i64`, and an error stands for `None`.
///
/// The decoder keeps the exponent of a number in 32 bits and takes the
/// absolute value of what the digits of the fraction and a negative exponent
/// add up to; where that leaves the 32 bits it may panic. `requires` leaves
/// out the texts in which this can happen: see the module `decodable`.
#[verifier::external_body]
fn read_aggr_fop(json: &str, filename: &str) -> (r: Result<Vec<(String, i64)>, gluster::GlusterError>)
    requires
        decodable(json@, aggr_prefix(filename@)),
    ensures
        match r {
            Ok(pairs) => aggr_fop_counts(json@, filename@) == Some(map_of(pairs_model(pairs@))),
            Err(_) => aggr_fop_counts(json@, filename@) is None,
        },
{
    match gluster::fop::read_aggr_fop(json, filename) {
        Ok(counts) => Ok(counts.into_iter().map(|(name, count)| (name, count as i64)).collect()),
        Err(e) => Err(e),
    }
}

/// Decodes the per-translator half of a dump.
///
/// Trusted: the body calls `gluster::fop::read_inter_fop`, which removes every
/// `gluster.brick.<filename>.inter.` from the text and reads what is left as a
/// JSON object whose values are numbers, written as such or as quoted text.
/// The contract claims only that the outcome is a function of the two
/// arguments, named `inter_fop_counts`: the pairs handed back are that map's
/// entries in the order in which the hash map gave them, each count converted
/// with `as i64`, and an error stands for `None`.
///
/// The decoder keeps the exponent of a number in 32 bits and takes the
/// absolute value of what the digits of the fraction and a negative exponent
/// add up to; where that leaves the 32 bits it may panic. `requires` leaves
/// out the texts in which this can happen: see the module `decodable`.
#[verifier::external_body]
fn read_inter_fop(json: &str, filename: &str) -> (r: Result<Vec<(String, i64)>, gluster::GlusterError>)
    requires
        decodable(json@, inter_prefix(filename@)),
    ensures
        match r {
            Ok(pairs) => inter_fop_counts(json@, filename@) == Some(map_of(pairs_model(pairs@))),
            Err(_) => inter_fop_counts(json@, filename@) is None,
        },
{
    match gluster::fop::read_inter_fop(json, filename) {
        Ok(counts) => Ok(counts.into_iter().map(|(name, count)| (name, count as i64)).collect()),
        Err(e) => Err(e),
    }
}

/// What the decoder takes off the names of the aggregate counters of the
/// brick `filename`.
pub open spec fn aggr_prefix(filename: Seq<char>) -> Seq<char> {
    "gluster.brick."@ + filename + ".aggr."@
}

/// What the decoder takes off the names of the per-translator counters of the
/// brick `filename`.
pub open spec fn inter_prefix(filename: Seq<char>) -> Seq<char> {
    "gluster.brick."@ + filename + ".inter."@
}

/// The aggregate counters of the half `json`: what gluster decodes, where it
/// can be handed the text at all.
pub open spec fn aggr_decoded(json: Seq<char>, filename: Seq<char>) -> Option<
    Map<Seq<char>, int>,
> {
    if decodable(json, aggr_prefix(filename)) {
        aggr_fop_counts(json, filename)
    } else {
        None
    }
}

/// The per-translator counters of the half `json`: what gluster decodes,
/// where it can be handed the text at all.
pub open spec fn inter_decoded(json: Seq<char>, filename: Seq<char>) -> Option<
    Map<Seq<char>, int>,
> {
    if decodable(json, inter_prefix(filename)) {
        inter_fop_counts(json, filename)
    } else {
        None
    }
}

/// The counters of a dump as plain values: the aggregate ones, then the
/// per-translator ones.
pub type DumpCounts = (Map<Seq<char>, int>, Map<Seq<char>, int>);

/// The text between the two objects of a dump: `}`, newline, `{`.
pub open spec fn boundary() -> Seq<char> {
    seq!['}', '\n', '{']
}

/// The boundary stands at index `i` of `text` and nowhere else.
pub open spec fn sole_boundary_at(text: Seq<char>, i: int) -> bool {
    &&& occurs_at(text, boundary(), i)
    &&& forall|j: int| occurs_at(text, boundary(), j) ==> j == i
}

/// The two halves of a dump, each with its brace restored; `None` unless the
/// boundary occurs exactly once.
pub open spec fn fragments(text: Seq<char>) -> Option<(Seq<char>, Seq<char>)> {
    if exists|i: int| sole_boundary_at(text, i) {
        let i = choose|i: int| sole_boundary_at(text, i);
        Some((text.take(i).push('}'), seq!['{'] + text.skip(i + 3)))
    } else {
        None
    }
}

/// What the two decoded halves amount to.
pub open spec fn combined(
    aggr: Option<Map<Seq<char>, int>>,
    inter: Option<Map<Seq<char>, int>>,
) -> Result<DumpCounts, CollectError> {
    match (aggr, inter) {
        (Some(a), Some(i)) => Ok((a, i)),
        _ => Err(CollectError::MalformedDump),
    }
}

/// What a dump with the text `content`, of the brick `filename`, decodes to:
/// malformed unless it has two halves, the decoder can take both, and it
/// decodes both.
pub open spec fn parse_outcome(content: Seq<char>, filename: Seq<char>) -> Result<
    DumpCounts,
    CollectError,
> {
    match fragments(content) {
        Some((first, second)) => combined(
            aggr_decoded(first, filename),
            inter_decoded(second, filename),
        ),
        None => Err(CollectError::MalformedDump),
    }
}

/// What reading and decoding a dump amounts to: `content` is the text that
/// was read, or `None` where the file could not be read.
pub open spec fn read_outcome(content: Option<&str>, filename: Seq<char>) -> Result<
    DumpCounts,
    CollectError,
> {
    match content {
        Some(text) => parse_outcome(text@, filename),
        None => Err(CollectError::IoError),
    }
}

/// The plain values of what a dump was decoded to.
pub open spec fn counts_of(decoded: Result<(CounterSet, CounterSet), CollectError>) -> Result<
    DumpCounts,
    CollectError,
> {
    match decoded {
        Ok((aggr, inter)) => Ok((aggr@, inter@)),
        Err(e) => Err(e),
    }
}

fn locate_boundary(text: &Vec<char>) -> (r: Option<usize>)
    ensures
        match r {
            Some(i) => sole_boundary_at(text@, i as int),
            None => forall|i: int| !sole_boundary_at(text@, i),
        },
{
    let pat: Vec<char> = vec!['}', '\n', '{'];
    assert(pat@ == boundary());
    let mut found: Option<usize> = None;
    let mut i: usize = 0;
    while i < text.len()
        invariant
            pat@ == boundary(),
            i <= text.len(),
            match found {
                Some(p) => {
                    &&& p < i
                    &&& occurs_at(text@, boundary(), p as int)
                    &&& forall|j: int| 0 <= j < i && occurs_at(text@, boundary(), j) ==> j == p
                },
                None => forall|j: int| 0 <= j < i ==> !occurs_at(text@, boundary(), j),
            },
        decreases text.len() - i,
    {
        if matches_at(text, &pat, i) {
            match found {
                Some(p) => {
                    assert forall|k: int| !sole_boundary_at(text@, k) by {
                        if sole_boundary_at(text@, k) {
                            assert(occurs_at(text@, boundary(), p as int));
                            assert(occurs_at(text@, boundary(), i as int));
                        }
                    }
                    return None;
                },
                None => {
                    found = Some(i);
                },
            }
        }
        i += 1;
    }
    proof {
        match found {
            Some(p) => {
                assert forall|j: int| occurs_at(text@, boundary(), j) implies j == p by {
                    assert(j + 3 <= text.len());
                }
            },
            None => {
                assert forall|k: int| !sole_boundary_at(text@, k) by {
                    if occurs_at(text@, boundary(), k) {
                        assert(k + 3 <= text.len());
                    }
                }
            },
        }
    }
    found
}

/// Decodes the aggregate half `json` of a dump of the brick `filename`, if
/// the decoder can take it.
pub fn decode_aggr(json: &str, filename: &str) -> (r: Result<CounterSet, CollectError>)
    ensures
        match r {
            Ok(counters) => distinct_names(counters.entries()) && aggr_decoded(json@, filename@)
                == Some(counters@),
            Err(e) => e == CollectError::MalformedDump && aggr_decoded(json@, filename@) is None,
        },
{
    let mut prefix = "gluster.brick.".to_owned();
    prefix.append(filename);
    prefix.append(".aggr.");
    if !is_decodable(json, prefix.as_str()) {
        return Err(CollectError::MalformedDump);
    }
    decoded_counters(read_aggr_fop(json, filename))
}

/// Decodes the per-translator half `json` of a dump of the brick `filename`,
/// if the decoder can take it.
pub fn decode_inter(json: &str, filename: &str) -> (r: Result<CounterSet, CollectError>)
    ensures
        match r {
            Ok(counters) => distinct_names(counters.entries()) && inter_decoded(json@, filename@)
                == Some(counters@),
            Err(e) => e == CollectError::MalformedDump && inter_decoded(json@, filename@) is None,
        },
{
    let mut prefix = "gluster.brick.".to_owned();
    prefix.append(filename);
    prefix.append(".inter.");
    if !is_decodable(json, prefix.as_str()) {
        return Err(CollectError::MalformedDump);
    }
    decoded_counters(read_inter_fop(json, filename))
}

/// Cuts a dump at its boundary and restores the brace of each half.
pub fn split_dump(content: &str) -> (r: Result<(String, String), CollectError>)
    ensures
        match r {
            Ok((first, second)) => fragments(content@) == Some((first@, second@)),
            Err(e) => e == CollectError::MalformedDump && fragments(content@) is None,
        },
{
    let text = chars_of(content);
    match locate_boundary(&text) {
        Some(i) => {
            let mut first = string_of_range(&text, 0, i);
            push_char(&mut first, '}');
            let mut second = String::new();
            push_char(&mut second, '{');
            push_range(&mut second, &text, i + 3, text.len());
            proof {
                let w = choose|w: int| sole_boundary_at(text@, w);
                assert(occurs_at(text@, boundary(), i as int));
                assert(w == i);
                assert(text@.take(i as int) == text@.subrange(0, i as int));
                assert(text@.skip(i + 3) == text@.subrange(i + 3, text.len() as int));
                assert(second@ == seq!['{'] + text@.skip(i + 3));
            }
            Ok((first, second))
        },
        None => Err(CollectError::MalformedDump),
    }
}

/// Turns what gluster's decoder handed back into a counter set: the pairs in
/// their order, a later pair replacing an earlier one of the same name, and
/// any decoding error as a malformed dump.
pub fn decoded_counters(decoded: Result<Vec<(String, i64)>, gluster::GlusterError>) -> (r: Result<
    CounterSet,
    CollectError,
>)
    ensures
        match decoded {
            Ok(pairs) => {
                &&& r matches Ok(counters)
                &&& distinct_names(counters.entries())
                &&& counters.entries() == inserted_all(pairs_model(pairs@))
                &&& counters@ == map_of(pairs_model(pairs@))
            },
            Err(_) => r matches Err(e) && e == CollectError::MalformedDump,
        },
{
    match decoded {
        Ok(pairs) => Ok(counters_from_pairs(&pairs)),
        Err(_) => Err(CollectError::MalformedDump),
    }
}

/// Decodes a dump of the brick `filename` into its aggregate and its
/// per-translator counters. `content` is the text that was read from the
/// file, or `None` where the file could not be read.
///
/// A dump that was read is malformed unless the boundary occurs exactly once,
/// the decoder can take both halves, and it decodes both. The order of the counters within each set
/// is the one in which the decoder handed them out.
pub fn split_and_parse_fops_json(content: Option<&str>, filename: &str) -> (r: Result<
    (CounterSet, CounterSet),
    CollectError,
>)
    ensures
        counts_of(r) == read_outcome(content, filename@),
        r matches Ok((aggr, inter)) ==> distinct_names(aggr.entries()) && distinct_names(
            inter.entries(),
        ),
{
    let text = match content {
        Some(text) => text,
        None => {
            return Err(CollectError::IoError);
        },
    };
    let (first, second) = match split_dump(text) {
        Ok(halves) => halves,
        Err(e) => {
            return Err(e);
        },
    };
    let aggr = match decode_aggr(first.as_str(), filename) {
        Ok(counters) => counters,
        Err(e) => {
            return Err(e);
        },
    };
    let inter = match decode_inter(second.as_str(), filename) {
        Ok(counters) => counters,
        Err(e) => {
            return Err(e);
        },
    };
    Ok((aggr, inter))
}

/// A dump that is one object ending in `}`, a newline, and one object
/// starting with `{` is cut into just these two objects and decodes to what
/// gluster decodes from each, provided that the boundary does not occur a
/// second time, inside either object. Where the decoder can take both objects
/// and decodes both, the dump therefore yields exactly two counter sets, and
/// their names together are the names of the two objects.
pub proof fn lemma_joined_objects_decode(first: Seq<char>, second: Seq<char>, filename: Seq<char>)
    requires
        first.len() > 0,
        first.last() == '}',
        second.len() > 0,
        second.first() == '{',
        forall|j: int| !occurs_at(first.drop_last(), boundary(), j),
        forall|j: int| !occurs_at(second.drop_first(), boundary(), j),
    ensures
        first.drop_last() + boundary() + second.drop_first() == first + seq!['\n'] + second,
        fragments(first + seq!['\n'] + second) == Some((first, second)),
        parse_outcome(first + seq!['\n'] + second, filename) == combined(
            aggr_decoded(first, filename),
            inter_decoded(second, filename),
        ),
        aggr_decoded(first, filename) is Some && inter_decoded(second, filename) is Some ==> {
            &&& parse_outcome(first + seq!['\n'] + second, filename) matches Ok((aggr, inter))
            &&& aggr == aggr_fop_counts(first, filename)->0
            &&& inter == inter_fop_counts(second, filename)->0
            &&& aggr.dom().union(inter.dom()) == aggr_fop_counts(first, filename)->0.dom().union(
                inter_fop_counts(second, filename)->0.dom(),
            )
        },
{
    let head = first.drop_last();
    let tail = second.drop_first();
    let content = first + seq!['\n'] + second;
    let p = head.len() as int;
    assert(head + boundary() + tail == content);
    assert(content.subrange(p, p + 3) == boundary());
    assert forall|j: int| occurs_at(content, boundary(), j) implies j == p by {
        let found = content.subrange(j, j + 3);
        assert(found[0] == content[j]);
        assert(found[1] == content[j + 1]);
        assert(found[2] == content[j + 2]);
        if j + 3 <= p {
            assert(head.subrange(j, j + 3) == found);
            assert(occurs_at(head, boundary(), j));
        } else if j >= p + 3 {
            assert(tail.subrange(j - p - 3, j - p) == found);
            assert(occurs_at(tail, boundary(), j - p - 3));
        }
    }
    assert(sole_boundary_at(content, p));
    let w = choose|w: int| sole_boundary_at(content, w);
    assert(w == p);
    assert(content.take(p).push('}') == first);
    assert(seq!['{'] + content.skip(p + 3) == second);
}

/// The cut loses nothing: the first half ends in `}`, the second starts with
/// `{`, and the two joined by a newline are the dump again.
pub proof fn lemma_fragments_rejoin(content: Seq<char>)
    ensures
        fragments(content) matches Some((first, second)) ==> {
            &&& first.len() > 0 && first.last() == '}'
            &&& second.len() > 0 && second.first() == '{'
            &&& first + seq!['\n'] + second == content
        },
{
    if exists|i: int| sole_boundary_at(content, i) {
        let i = choose|i: int| sole_boundary_at(content, i);
        let found = content.subrange(i, i + 3);
        assert(found[0] == content[i]);
        assert(found[1] == content[i + 1]);
        assert(found[2] == content[i + 2]);
        assert(content.take(i).push('}') + seq!['\n'] + (seq!['{'] + content.skip(i + 3))
            =~= content);
    }
}

/// A dump with a half that the decoder cannot take is malformed: nothing is
/// decoded from a text that could send the decoder's arithmetic out of range.
pub proof fn lemma_undecodable_is_malformed(content: Seq<char>, filename: Seq<char>)
    requires
        fragments(content) matches Some((first, second)) && !(decodable(
            first,
            aggr_prefix(filename),
        ) && decodable(second, inter_prefix(filename))),
    ensures
        parse_outcome(content, filename) matches Err(e) && e == CollectError::MalformedDump,
{
}

/// A dump in which the boundary does not occur, or occurs more than once, is
/// malformed.
pub proof fn lemma_boundary_count_decides(content: Seq<char>, filename: Seq<char>)
    requires
        (forall|j: int| !occurs_at(content, boundary(), j)) || (exists|j: int, k: int|
            j != k && occurs_at(content, boundary(), j) && occurs_at(content, boundary(), k)),
    ensures
        fragments(content) is None,
        parse_outcome(content, filename) matches Err(e) && e == CollectError::MalformedDump,
{
    assert forall|i: int| !sole_boundary_at(content, i) by {
        if sole_boundary_at(content, i) {
            if forall|j: int| !occurs_at(content, boundary(), j) {
                assert(!occurs_at(content, boundary(), i));
            } else {
                let (j, k) = choose|j: int, k: int|
                    j != k && occurs_at(content, boundary(), j) && occurs_at(
                        content,
                        boundary(),
                        k,
                    );
                assert(j == i);
                assert(k == i);
            }
        }
    }
}

} // verus!
