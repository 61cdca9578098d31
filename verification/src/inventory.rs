//! The inventory as a whole: which files are scanned, what becomes of the
//! outcome of each, and the table of those that gave a record.

use vstd::prelude::*;
use vstd::seq_lib::to_multiset_len;
use crate::document::opt_text;
use crate::numeral::{parse_usize, usize_of};
use crate::order::{is_sorted, lemma_sorted_unique, record_views, sort_records};
use crate::record::{
    outcome_view, parsed_record, texts, ExtractionError, MediaInfo, MediaInfoView,
};
use crate::table::{render_infotable, table_lines};
use crate::text::same_text;

verus! {

/// How deep a scan goes where recursion was asked for without a depth.
pub const RECURSIVE_DEPTH: usize = 10;

/// Whether `ext` is the extension of a media file: `mkv`, `avi`, `mpg` or
/// `mp4`.
pub open spec fn is_media_extension(ext: Option<Seq<char>>) -> bool {
    ext == Some("mkv"@) || ext == Some("avi"@) || ext == Some("mpg"@) || ext == Some("mp4"@)
}

/// Whether a file with the extension `ext` is a media file. A file without
/// an extension is none.
pub fn filter_by_extension(ext: Option<&str>) -> (r: bool)
    ensures
        r == is_media_extension(opt_text(ext)),
{
    match ext {
        Some(e) => same_text(e, "mkv") || same_text(e, "avi") || same_text(e, "mpg") || same_text(
            e,
            "mp4",
        ),
        None => false,
    }
}

/// Whether the walk keeps an entry: a directory, into which it may descend,
/// or a media file.
pub fn keeps_entry(is_dir: bool, ext: Option<&str>) -> (r: bool)
    ensures
        r == (is_dir || is_media_extension(opt_text(ext))),
{
    is_dir || filter_by_extension(ext)
}

/// Whether an entry of the walk is a candidate for the inventory: a media
/// file that is no directory.
pub fn is_candidate(is_dir: bool, ext: Option<&str>) -> (r: bool)
    ensures
        r == (!is_dir && is_media_extension(opt_text(ext))),
{
    !is_dir && filter_by_extension(ext)
}

/// The depth that the command line asks for: the explicit depth, or ten
/// where only recursion was asked for, or none.
pub fn requested_depth(recursive: bool, depth: Option<usize>) -> (r: Option<usize>)
    ensures
        r == match depth {
            Some(d) => Some(d),
            None => if recursive {
                Some(10usize)
            } else {
                None
            },
        },
{
    match depth {
        Some(d) => Some(d),
        None => if recursive {
            Some(RECURSIVE_DEPTH)
        } else {
            None
        },
    }
}

/// How deep the walk goes: the depth asked for, or one, which is the
/// directory itself.
pub fn walk_depth(depth: Option<usize>) -> (r: usize)
    ensures
        r == match depth {
            Some(d) => d,
            None => 1,
        },
{
    match depth {
        Some(d) => d,
        None => 1,
    }
}

/// The count that an option of the command line gives: one where the option
/// is absent or writes no count.
pub open spec fn count_of(arg: Option<Seq<char>>) -> int {
    match arg {
        Some(text) => match usize_of(text) {
            Some(n) => n,
            None => 1,
        },
        None => 1,
    }
}

/// The count that an option of the command line gives.
pub fn requested_count(arg: Option<&str>) -> (r: usize)
    ensures
        r == count_of(opt_text(arg)),
{
    match arg {
        Some(text) => match parse_usize(text) {
            Some(n) => n,
            None => 1,
        },
        None => 1,
    }
}

/// What one unit of work gives for the file `filename`, once the metadata
/// tool has answered with `extracted`: the tool's failure, or what the
/// document holds.
pub fn process(filename: String, extracted: Result<String, ExtractionError>) -> (r: Result<
    Option<MediaInfo>,
    ExtractionError,
>)
    ensures
        outcome_view(r) == match extracted {
            Ok(md) => parsed_record(filename@, md@),
            Err(e) => Err(e),
        },
{
    match extracted {
        Ok(md) => MediaInfo::parse(filename, md),
        Err(e) => Err(e),
    }
}

/// Whether an outcome is worth a warning: a failure is, a file without a
/// container is not.
pub fn warrants_warning(outcome: &Result<Option<MediaInfo>, ExtractionError>) -> (r: bool)
    ensures
        r == (outcome is Err),
{
    match outcome {
        Ok(_) => false,
        Err(_) => true,
    }
}

/// The outcome of one file, as the contracts see it.
pub type OutcomeView = Result<Option<MediaInfoView>, ExtractionError>;

/// The views of a sequence of outcomes.
pub open spec fn outcome_views(s: Seq<Result<Option<MediaInfo>, ExtractionError>>) -> Seq<
    OutcomeView,
> {
    s.map_values(|o: Result<Option<MediaInfo>, ExtractionError>| outcome_view(o))
}

/// The records among the outcomes, in their order.
pub open spec fn successes(outcomes: Seq<OutcomeView>) -> Seq<MediaInfoView>
    decreases outcomes.len(),
{
    if outcomes.len() == 0 {
        Seq::empty()
    } else {
        match outcomes.last() {
            Ok(Some(m)) => successes(outcomes.drop_last()).push(m),
            _ => successes(outcomes.drop_last()),
        }
    }
}

/// The records among the outcomes, in their order. Failures and files
/// without a container leave nothing behind.
pub fn collect(outcomes: Vec<Result<Option<MediaInfo>, ExtractionError>>) -> (r: Vec<MediaInfo>)
    ensures
        record_views(r@) == successes(outcome_views(outcomes@)),
{
    let mut out: Vec<MediaInfo> = Vec::new();
    let ghost all = outcome_views(outcomes@);
    assert(all.take(0) =~= Seq::empty());
    assert(record_views(out@) =~= Seq::empty());
    for o in it: outcomes
        invariant
            all == outcome_views(it.seq()),
            record_views(out@) == successes(all.take(it.index() as int)),
    {
        let ghost seen = all.take(it.index() as int);
        proof {
            let next = all.take(it.index() + 1);
            assert(next.drop_last() =~= seen);
            assert(next.last() == outcome_view(o));
        }
        match o {
            Ok(Some(m)) => {
                out.push(m);
                assert(record_views(out@) =~= successes(seen).push(m@));
            },
            _ => {},
        }
    }
    assert(all.take(all.len() as int) =~= all);
    out
}

/// Whether `lines` is the table of the records among `outcomes`, put in
/// order.
pub open spec fn is_inventory(
    lines: Seq<Seq<char>>,
    outcomes: Seq<OutcomeView>,
    vts: nat,
    ats: nat,
) -> bool {
    exists|sorted: Seq<MediaInfoView>|
        {
            &&& is_sorted(sorted)
            &&& sorted.to_multiset() == successes(outcomes).to_multiset()
            &&& lines == #[trigger] table_lines(sorted, vts, ats)
        }
}

/// The table of an inventory, from the outcomes of its files in whatever
/// order they came: the records among them are put in order and rendered,
/// one line each. `maxes.0` video slots and `maxes.1` audio slots are asked
/// for.
pub fn inventory(
    outcomes: Vec<Result<Option<MediaInfo>, ExtractionError>>,
    maxes: (usize, usize, usize),
) -> (r: Vec<String>)
    ensures
        is_inventory(texts(r@), outcome_views(outcomes@), maxes.0 as nat, maxes.1 as nat),
        r@.len() == successes(outcome_views(outcomes@)).len(),
{
    let data = sort_records(collect(outcomes));
    let lines = render_infotable(&data, maxes);
    proof {
        let sorted = record_views(data@);
        assert(texts(lines@) == table_lines(sorted, maxes.0 as nat, maxes.1 as nat));
        to_multiset_len(sorted);
        to_multiset_len(successes(outcome_views(outcomes@)));
        assert(texts(lines@).len() == lines@.len());
    }
    lines
}

/// The table does not depend on the order in which the files were done:
/// outcomes that hold the same records, each as often, give the same lines.
pub proof fn lemma_inventory_determined(
    first: Seq<Seq<char>>,
    second: Seq<Seq<char>>,
    a: Seq<OutcomeView>,
    b: Seq<OutcomeView>,
    vts: nat,
    ats: nat,
)
    requires
        is_inventory(first, a, vts, ats),
        is_inventory(second, b, vts, ats),
        successes(a).to_multiset() == successes(b).to_multiset(),
    ensures
        first == second,
{
    let x = choose|s: Seq<MediaInfoView>|
        {
            &&& is_sorted(s)
            &&& s.to_multiset() == successes(a).to_multiset()
            &&& first == #[trigger] table_lines(s, vts, ats)
        };
    let y = choose|s: Seq<MediaInfoView>|
        {
            &&& is_sorted(s)
            &&& s.to_multiset() == successes(b).to_multiset()
            &&& second == #[trigger] table_lines(s, vts, ats)
        };
    lemma_sorted_unique(x, y);
}

/// One failure leaves the other files alone: where the outcome at `bad` is
/// no record and every other outcome is one, the records are the other
/// outcomes, in their order.
pub proof fn lemma_isolation(outcomes: Seq<OutcomeView>, bad: int)
    requires
        0 <= bad < outcomes.len(),
        !(outcomes[bad] matches Ok(Some(_))),
        forall|i: int|
            0 <= i < outcomes.len() && i != bad ==> (#[trigger] outcomes[i] matches Ok(Some(_))),
    ensures
        successes(outcomes).len() == outcomes.len() - 1,
        forall|i: int| 0 <= i < bad ==> outcomes[i] == Ok::<
            Option<MediaInfoView>,
            ExtractionError,
        >(Some(#[trigger] successes(outcomes)[i])),
        forall|i: int|
            bad <= i < outcomes.len() - 1 ==> outcomes[i + 1] == Ok::<
                Option<MediaInfoView>,
                ExtractionError,
            >(Some(#[trigger] successes(outcomes)[i])),
    decreases outcomes.len(),
{
    let rest = outcomes.drop_last();
    if bad == outcomes.len() - 1 {
        lemma_all_records(rest);
    } else {
        lemma_isolation(rest, bad);
    }
}

/// Where every outcome is a record, the records are the outcomes.
pub proof fn lemma_all_records(outcomes: Seq<OutcomeView>)
    requires
        forall|i: int| 0 <= i < outcomes.len() ==> (#[trigger] outcomes[i] matches Ok(Some(_))),
    ensures
        successes(outcomes).len() == outcomes.len(),
        forall|i: int| 0 <= i < outcomes.len() ==> outcomes[i] == Ok::<
            Option<MediaInfoView>,
            ExtractionError,
        >(Some(#[trigger] successes(outcomes)[i])),
    decreases outcomes.len(),
{
    if outcomes.len() > 0 {
        lemma_all_records(outcomes.drop_last());
    }
}

/// One failure costs one line: where the outcome at `bad` is no record and
/// every other outcome is one, the table has a line for each of the others.
pub proof fn lemma_isolation_lines(
    lines: Seq<Seq<char>>,
    outcomes: Seq<OutcomeView>,
    bad: int,
    vts: nat,
    ats: nat,
)
    requires
        0 <= bad < outcomes.len(),
        !(outcomes[bad] matches Ok(Some(_))),
        forall|i: int|
            0 <= i < outcomes.len() && i != bad ==> (#[trigger] outcomes[i] matches Ok(Some(_))),
        is_inventory(lines, outcomes, vts, ats),
    ensures
        lines.len() == outcomes.len() - 1,
{
    lemma_isolation(outcomes, bad);
    let sorted = choose|s: Seq<MediaInfoView>|
        {
            &&& is_sorted(s)
            &&& s.to_multiset() == successes(outcomes).to_multiset()
            &&& lines == #[trigger] table_lines(s, vts, ats)
        };
    to_multiset_len(sorted);
    to_multiset_len(successes(outcomes));
}

} // verus!
