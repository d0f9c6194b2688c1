use vstd::prelude::*;
use crate::archive::archive_bytes;
use crate::compress::{lemma_replacement_origin, media_names, media_of, pipeline_result, replacement_map};
use crate::errors::ImageikaError;
use crate::transcode::Transcoded;
use crate::dims::target_size;
use crate::entry::{rebuilt, EntryModel};
use crate::media::media_name;

verus! {

/// The rebuilt archive has as many entries as the source, with the same
/// names, in the same order.
pub proof fn lemma_rebuilt_keeps_names(src: Seq<EntryModel>, m: Map<Seq<char>, Seq<u8>>)
    ensures
        rebuilt(src, m).len() == src.len(),
        forall|i: int| 0 <= i < src.len() ==> #[trigger] rebuilt(src, m)[i].name == src[i].name,
{
}

/// Every rebuilt entry has the last-modified time and the permission bits of
/// its source entry.
pub proof fn lemma_rebuilt_keeps_metadata(src: Seq<EntryModel>, m: Map<Seq<char>, Seq<u8>>)
    ensures
        forall|i: int| 0 <= i < src.len() ==> #[trigger] rebuilt(src, m)[i].modified
            == src[i].modified && rebuilt(src, m)[i].mode == src[i].mode,
{
}

/// An entry whose name is not a media name keeps its bytes.
pub proof fn lemma_passthrough(src: Seq<EntryModel>, outcomes: Seq<Result<Option<Transcoded>, ImageikaError>>)
    requires
        outcomes.len() == media_of(src).len(),
    ensures
        forall|i: int| 0 <= i < src.len() && !media_name(src[i].name)
            ==> #[trigger] pipeline_result(src, outcomes)[i].data == src[i].data,
{
    let names = media_names(src);
    assert forall|i: int| 0 <= i < src.len() && !media_name(src[i].name)
        implies #[trigger] pipeline_result(src, outcomes)[i].data == src[i].data by {
        if replacement_map(names, outcomes).contains_key(src[i].name) {
            lemma_replacement_origin(names, outcomes, src[i].name);
            let j = choose|j: int| 0 <= j < names.len() && names[j] == src[i].name
                && #[trigger] outcomes[j] matches Ok(Some(_));
            src.lemma_filter_pred(|e: EntryModel| media_name(e.name), j);
        }
    }
}

/// An entry keeps its bytes when no transcoding under its name succeeded: a
/// failed transcoding never substitutes anything.
pub proof fn lemma_fallback(src: Seq<EntryModel>, outcomes: Seq<Result<Option<Transcoded>, ImageikaError>>, i: int)
    requires
        outcomes.len() == media_of(src).len(),
        0 <= i < src.len(),
        forall|j: int| 0 <= j < outcomes.len() && media_names(src)[j] == src[i].name
            ==> !(#[trigger] outcomes[j] matches Ok(Some(_))),
    ensures
        pipeline_result(src, outcomes)[i].data == src[i].data,
{
    if replacement_map(media_names(src), outcomes).contains_key(src[i].name) {
        lemma_replacement_origin(media_names(src), outcomes, src[i].name);
        let j = choose|j: int| 0 <= j < media_names(src).len() && media_names(src)[j] == src[i].name
            && #[trigger] outcomes[j] matches Ok(Some(_));
        assert(!(outcomes[j] matches Ok(Some(_))));
    }
}

/// A package without media entries comes out as it went in, whatever the
/// outcomes; two runs give the same entries and the same archive bytes.
pub proof fn lemma_no_media_unchanged(
    src: Seq<EntryModel>,
    o1: Seq<Result<Option<Transcoded>, ImageikaError>>,
    o2: Seq<Result<Option<Transcoded>, ImageikaError>>,
)
    requires
        forall|i: int| 0 <= i < src.len() ==> !media_name(#[trigger] src[i].name),
        o1.len() == media_of(src).len(),
        o2.len() == media_of(src).len(),
    ensures
        pipeline_result(src, o1) == src,
        pipeline_result(src, o1) == pipeline_result(src, o2),
        forall|c: Seq<(Option<(Seq<char>, Seq<u8>, u16, u16, Option<u32>)>, Option<Seq<u8>>)>|
            #[trigger] archive_bytes(c, pipeline_result(src, o1)) == archive_bytes(c, pipeline_result(src, o2)),
{
    lemma_passthrough(src, o1);
    lemma_passthrough(src, o2);
    assert forall|i: int| 0 <= i < src.len() implies #[trigger] pipeline_result(src, o1)[i] == src[i]
        && pipeline_result(src, o2)[i] == src[i] by {
        assert(pipeline_result(src, o1)[i].data == src[i].data);
        assert(pipeline_result(src, o2)[i].data == src[i].data);
    }
    assert(pipeline_result(src, o1) =~= src);
    assert(pipeline_result(src, o2) =~= src);
}

/// Scaling keeps the aspect ratio up to rounding: for a `w` x `h` image scaled
/// to `tw` x `th`, the cross products `tw * h` and `th * w` differ by less than
/// the longer source side, that is `tw / th` and `w / h` differ by less than
/// `max(w, h) / (th * h)`.
pub proof fn lemma_aspect_ratio(w: nat, h: nat, tw: nat, th: nat)
    requires
        w > 0,
        h > 0,
        target_size(w, h) == Some((tw, th)),
    ensures
        w > h ==> 0 <= tw * h - th * w < w,
        w <= h ==> 0 <= th * w - tw * h < h,
{
    if w > h {
        let n = 1000 * h;
        assert((n / w) * w <= n && n < (n / w + 1) * w) by (nonlinear_arith) requires w > 0;
        assert(th * w <= tw * h < th * w + w) by (nonlinear_arith)
            requires th == n / w, tw == 1000, n == 1000 * h, (n / w) * w <= n, n < (n / w + 1) * w;
    } else {
        let n = 1000 * w;
        assert((n / h) * h <= n && n < (n / h + 1) * h) by (nonlinear_arith) requires h > 0;
        assert(tw * h <= th * w < tw * h + h) by (nonlinear_arith)
            requires tw == n / h, th == 1000, n == 1000 * w, (n / h) * h <= n, n < (n / h + 1) * h;
    }
}

} // verus!
