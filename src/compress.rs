use vstd::prelude::*;
use rayon::iter::{IntoParallelRefIterator, ParallelIterator};
use crate::archive::{archive_bytes, archive_contents, entries_fit, parsed_archive, read_entries, readable_model, write_archive};
use crate::entry::{copy_bytes, entries_model, rebuild_entries, rebuilt, Entry, EntryModel, ReplacementSet};
use crate::errors::ImageikaError;
use crate::media::{is_media_name, media_name};
use crate::transcode::{resize, resize_outcome, Transcoded};

verus! {

/// The media entries of `src`, in order.
pub open spec fn media_of(src: Seq<EntryModel>) -> Seq<EntryModel> {
    src.filter(|e: EntryModel| media_name(e.name))
}

/// The names of the media entries of `src`, in order.
pub open spec fn media_names(src: Seq<EntryModel>) -> Seq<Seq<char>> {
    media_of(src).map_values(|e: EntryModel| e.name)
}

/// The replacement set that the outcomes of transcoding make: for each name,
/// in order, the bytes of a successful transcoding are stored under it, a later
/// one in place of an earlier one; failed or skipped outcomes store nothing.
pub open spec fn replacement_map(
    names: Seq<Seq<char>>,
    outcomes: Seq<Result<Option<Transcoded>, ImageikaError>>,
) -> Map<Seq<char>, Seq<u8>>
    decreases names.len(),
{
    if names.len() == 0 {
        Map::empty()
    } else {
        let prev = replacement_map(names.drop_last(), outcomes.drop_last());
        match outcomes.last() {
            Ok(Some(t)) => prev.insert(names.last(), t.bytes@),
            _ => prev,
        }
    }
}

/// Whether `outcomes` are outcomes that `resize` may give on the media entries
/// of `src`, one each, in order.
pub open spec fn media_outcomes(src: Seq<EntryModel>, outcomes: Seq<Result<Option<Transcoded>, ImageikaError>>) -> bool {
    &&& outcomes.len() == media_of(src).len()
    &&& forall|j: int| 0 <= j < outcomes.len() ==> resize_outcome(media_of(src)[j].data, #[trigger] outcomes[j])
}

/// The entries that the pipeline makes of `src` given the transcoding outcomes
/// of its media entries.
pub open spec fn pipeline_result(src: Seq<EntryModel>, outcomes: Seq<Result<Option<Transcoded>, ImageikaError>>) -> Seq<EntryModel> {
    rebuilt(src, replacement_map(media_names(src), outcomes))
}

/// A name in the replacement set comes with a successful outcome under it.
pub proof fn lemma_replacement_origin(
    names: Seq<Seq<char>>,
    outcomes: Seq<Result<Option<Transcoded>, ImageikaError>>,
    key: Seq<char>,
)
    requires
        names.len() == outcomes.len(),
        replacement_map(names, outcomes).contains_key(key),
    ensures
        exists|j: int| 0 <= j < names.len() && names[j] == key && #[trigger] outcomes[j] matches Ok(Some(_)),
    decreases names.len(),
{
    let n = names.len() - 1;
    let prev = replacement_map(names.drop_last(), outcomes.drop_last());
    if (outcomes.last() matches Ok(Some(_))) && names.last() == key {
        assert(names[n] == key && outcomes[n] matches Ok(Some(_)));
    } else {
        assert(prev.contains_key(key));
        lemma_replacement_origin(names.drop_last(), outcomes.drop_last(), key);
        let j = choose|j: int| 0 <= j < n && names.drop_last()[j] == key
            && #[trigger] outcomes.drop_last()[j] matches Ok(Some(_));
        assert(names[j] == key && outcomes[j] matches Ok(Some(_)));
    }
}

/// Relies on rayon's par_iter, map and collect: `resize` runs on each input on
/// the thread pool, and the outcomes are collected in the inputs' order.
#[verifier::external_body]
fn resize_all(inputs: &Vec<Vec<u8>>) -> (r: Vec<Result<Option<Transcoded>, ImageikaError>>)
    ensures
        r@.len() == inputs@.len(),
        forall|i: int| 0 <= i < r@.len() ==> resize_outcome(inputs@[i]@, #[trigger] r@[i]),
{
    inputs.par_iter().map(|b| resize(b)).collect()
}

/// Builds the replacement set from the transcoding outcome of each media name.
pub fn collect_replacements(
    names: &Vec<String>,
    outcomes: &Vec<Result<Option<Transcoded>, ImageikaError>>,
) -> (r: ReplacementSet)
    requires
        names@.len() == outcomes@.len(),
    ensures
        r.wf(),
        r@ == replacement_map(names@.map_values(|s: String| s@), outcomes@),
{
    let ghost ns = names@.map_values(|s: String| s@);
    let mut repl = ReplacementSet::new();
    let mut k: usize = 0;
    while k < outcomes.len()
        invariant
            k <= outcomes@.len(),
            names@.len() == outcomes@.len(),
            ns == names@.map_values(|s: String| s@),
            repl.wf(),
            repl@ == replacement_map(ns.subrange(0, k as int), outcomes@.subrange(0, k as int)),
        decreases outcomes@.len() - k,
    {
        proof {
            let (n1, o1) = (ns.subrange(0, k + 1), outcomes@.subrange(0, k + 1));
            assert(n1.drop_last() =~= ns.subrange(0, k as int));
            assert(o1.drop_last() =~= outcomes@.subrange(0, k as int));
        }
        match &outcomes[k] {
            Ok(Some(t)) => {
                let bytes = copy_bytes(&t.bytes);
                repl.insert(names[k].clone(), bytes);
            },
            _ => {},
        }
        k = k + 1;
    }
    assert(ns.subrange(0, k as int) =~= ns);
    assert(outcomes@.subrange(0, k as int) =~= outcomes@);
    repl
}

/// Runs the pipeline on the entries of a package: the media entries are
/// transcoded in parallel, and the new entries are the source entries in
/// their order, each with its own name, time and permission bits, with the
/// transcoded content where transcoding succeeded and the original bytes
/// everywhere else.
pub fn compress_entries(src: &Vec<Entry>) -> (r: Vec<Entry>)
    ensures
        exists|outcomes: Seq<Result<Option<Transcoded>, ImageikaError>>|
            media_outcomes(entries_model(src@), outcomes)
            && entries_model(r@) == pipeline_result(entries_model(src@), outcomes),
{
    let ghost s = entries_model(src@);
    let ghost f = |e: EntryModel| media_name(e.name);
    let mut names: Vec<String> = Vec::new();
    let mut inputs: Vec<Vec<u8>> = Vec::new();
    let mut i: usize = 0;
    // extraction: the media entries' names and bytes, in order
    while i < src.len()
        invariant
            i <= src.len(),
            s == entries_model(src@),
            f == (|e: EntryModel| media_name(e.name)),
            names@.len() == inputs@.len(),
            names@.len() == s.subrange(0, i as int).filter(f).len(),
            forall|j: int| 0 <= j < names@.len() ==> #[trigger] names@[j]@ == s.subrange(0, i as int).filter(f)[j].name,
            forall|j: int| 0 <= j < inputs@.len() ==> #[trigger] inputs@[j]@ == s.subrange(0, i as int).filter(f)[j].data,
        decreases src.len() - i,
    {
        proof {
            reveal(Seq::filter);
            assert(s.subrange(0, i + 1).drop_last() =~= s.subrange(0, i as int));
        }
        if is_media_name(src[i].name.as_str()) {
            names.push(src[i].name.clone());
            inputs.push(copy_bytes(&src[i].data));
        }
        i = i + 1;
    }
    assert(s.subrange(0, i as int) =~= s);
    let outcomes = resize_all(&inputs);
    let repl = collect_replacements(&names, &outcomes);
    proof {
        assert(names@.map_values(|x: String| x@) =~= media_names(s));
        assert(media_outcomes(s, outcomes@));
    }
    let r = rebuild_entries(src, &repl);
    assert(entries_model(r@) == pipeline_result(s, outcomes@));
    r
}

/// What compressing an archive with contents `c` returns, given the
/// transcoding outcomes of its readable media entries: success where every new
/// entry fits, and on success the bytes of the archive that holds, in order,
/// the new entries and the stored forms of the unreadable ones.
pub open spec fn compressed_as(
    c: Seq<(Option<(Seq<char>, Seq<u8>, u16, u16, Option<u32>)>, Option<Seq<u8>>)>,
    outcomes: Seq<Result<Option<Transcoded>, ImageikaError>>,
    r: Result<Vec<u8>, zip::result::ZipError>,
) -> bool {
    &&& media_outcomes(readable_model(c), outcomes)
    &&& entries_fit(pipeline_result(readable_model(c), outcomes)) ==> r is Ok
    &&& r matches Ok(out) ==> out@ == archive_bytes(c, pipeline_result(readable_model(c), outcomes))
}

/// Shrinks the package held in `input` and returns the bytes of the new one.
/// It fails where the package does not open as an archive, and succeeds where
/// it does and every new entry is small enough to be written without zip64.
/// An entry that cannot be read is copied in its stored form; an image that
/// cannot be transcoded keeps its bytes; neither fails the run.
pub fn compress_pptx(input: Vec<u8>) -> (r: Result<Vec<u8>, zip::result::ZipError>)
    ensures
        parsed_archive(input@) is None ==> r is Err,
        parsed_archive(input@) matches Some(c) ==> exists|outcomes: Seq<Result<Option<Transcoded>, ImageikaError>>|
            #[trigger] compressed_as(c, outcomes, r),
{
    let ghost inp = input@;
    let (mut archive, slots) = match read_entries(input) {
        Ok(x) => x,
        Err(e) => return Err(e),
    };
    let ghost c = archive_contents(archive);
    let mut readable: Vec<bool> = Vec::new();
    let mut entries: Vec<Entry> = Vec::new();
    let mut i: usize = 0;
    while i < slots.len()
        invariant
            i <= slots@.len(),
            slots@.len() == c.len(),
            forall|j: int| 0 <= j < slots@.len() ==> (#[trigger] slots@[j] is Some <==> c[j].0 is Some)
                && (slots@[j] matches Some(e) ==> e@ == crate::archive::entry_of(c[j].0.unwrap())),
            readable@.len() == i,
            forall|j: int| 0 <= j < i ==> #[trigger] readable@[j] == c[j].0 is Some,
            entries_model(entries@) == readable_model(c.subrange(0, i as int)),
        decreases slots@.len() - i,
    {
        proof {
            assert(c.subrange(0, i + 1).drop_last() =~= c.subrange(0, i as int));
        }
        match &slots[i] {
            Some(e) => {
                readable.push(true);
                entries.push(Entry { name: e.name.clone(), data: copy_bytes(&e.data), modified: e.modified, mode: e.mode });
                assert(entries_model(entries@) =~= readable_model(c.subrange(0, i + 1)));
            },
            None => {
                readable.push(false);
                assert(entries_model(entries@) =~= readable_model(c.subrange(0, i + 1)));
            },
        }
        i = i + 1;
    }
    assert(c.subrange(0, i as int) =~= c);
    let processed = compress_entries(&entries);
    let ghost outcomes = choose|o: Seq<Result<Option<Transcoded>, ImageikaError>>|
        media_outcomes(entries_model(entries@), o)
        && entries_model(processed@) == pipeline_result(entries_model(entries@), o);
    assert(processed@.len() == entries_model(processed@).len());
    let r = write_archive(&mut archive, &readable, &processed);
    assert(parsed_archive(inp) == Some(c));
    assert(inp == input@);
    assert(entries_model(entries@) == readable_model(c));
    assert(media_outcomes(readable_model(c), outcomes));
    assert(compressed_as(c, outcomes, r));
    assert(exists|o: Seq<Result<Option<Transcoded>, ImageikaError>>| #[trigger] compressed_as(c, o, r));
    assert(parsed_archive(input@)->Some_0 == c);
    r
}

} // verus!
