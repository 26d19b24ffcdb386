//! Showing a model the images that its tools produced.

use vstd::prelude::*;

use crate::codec::base64_bytes;
use crate::codec::base64_decode;
use crate::json::{json_result, Json, JsonView};
use crate::model::messages::image_item;
use crate::model::messages::make_image_item;
use crate::text::{
    concat3, concat5, copy_str, decimal_of, is_blank, join, split_once, starts_with, str_eq,
    trim_end,
};
use crate::text::{
    decimal, has_prefix, is_blank_text, joined, opt_text, split_at_first, strings, trimmed_end,
};
use crate::types::artifact_views;
use crate::types::{ArtifactView, ChatToolArtifact, McpToolCallResult, ToolResultView};

verus! {

/// The images that are shown, and how many were left out for their size and for
/// their number.
#[verifier::ext_equal]
pub struct Selection {
    pub accepted: Seq<(ArtifactView, Seq<u8>)>,
    pub oversize: nat,
    pub overflow: nat,
}

/// The payload of a `data:` URL: what follows the first comma.
pub open spec fn payload_of(data_url: Seq<char>) -> Seq<char> {
    match split_at_first(data_url, ","@) {
        Some(parts) => parts.1,
        None => data_url,
    }
}

/// The bytes of an artifact that is an image.
pub open spec fn image_bytes(artifact: ArtifactView) -> Option<Seq<u8>> {
    if has_prefix(artifact.mime_type, "image/"@) && artifact.data_url.len() > 0 {
        base64_bytes(payload_of(artifact.data_url))
    } else {
        None
    }
}

/// What becomes of the artifacts: an image of too many bytes is left out, and so
/// is one that comes after the last that there is room for. What is no image, or
/// cannot be decoded, is passed over.
pub open spec fn selected_images(
    artifacts: Seq<ArtifactView>,
    max_bytes: int,
    max_images: int,
) -> Selection
    decreases artifacts.len(),
{
    if artifacts.len() == 0 {
        Selection { accepted: Seq::empty(), oversize: 0, overflow: 0 }
    } else {
        let before = selected_images(artifacts.drop_last(), max_bytes, max_images);
        match image_bytes(artifacts.last()) {
            None => before,
            Some(bytes) => if bytes.len() > max_bytes {
                Selection { oversize: before.oversize + 1, ..before }
            } else if before.accepted.len() >= max_images {
                Selection { overflow: before.overflow + 1, ..before }
            } else {
                Selection { accepted: before.accepted.push((artifacts.last(), bytes)), ..before }
            },
        }
    }
}

/// What is said of the images that were left out.
pub open spec fn left_out_note(
    oversize: nat,
    overflow: nat,
    max_bytes: nat,
    max_images: nat,
) -> Option<Seq<char>> {
    let too_big = "（"@ + decimal(oversize) + " 张图片超过 "@ + decimal(max_bytes / 1048576)
        + "MB 上限，未内联，保留文字占位符）"@;
    let too_many = "（另有 "@ + decimal(overflow) + " 张图片超出单结果 "@ + decimal(max_images)
        + " 张上限，未内联）"@;
    if oversize > 0 && overflow > 0 {
        Some(joined(seq![too_big, too_many], "\n"@))
    } else if oversize > 0 {
        Some(too_big)
    } else if overflow > 0 {
        Some(too_many)
    } else {
        None
    }
}

fn note_left_out(oversize: usize, overflow: usize, max_bytes: usize, max_images: usize) -> (r: Option<
    String,
>)
    ensures
        opt_text(r) == left_out_note(
            oversize as nat,
            overflow as nat,
            max_bytes as nat,
            max_images as nat,
        ),
{
    let mut notes: Vec<String> = Vec::new();
    if oversize > 0 {
        let count = decimal_of(oversize as u64);
        let limit = decimal_of((max_bytes / 1048576) as u64);
        notes.push(
            concat5(
                "（",
                count.as_str(),
                " 张图片超过 ",
                limit.as_str(),
                "MB 上限，未内联，保留文字占位符）",
            ),
        );
    }
    if overflow > 0 {
        let count = decimal_of(overflow as u64);
        let limit = decimal_of(max_images as u64);
        notes.push(
            concat5(
                "（另有 ",
                count.as_str(),
                " 张图片超出单结果 ",
                limit.as_str(),
                " 张上限，未内联）",
            ),
        );
    }
    if notes.len() == 0 {
        return None;
    }
    let note = join(&notes, "\n");
    proof {
        let too_big = "（"@ + decimal(oversize as nat) + " 张图片超过 "@ + decimal(
            max_bytes as nat / 1048576,
        ) + "MB 上限，未内联，保留文字占位符）"@;
        let too_many = "（另有 "@ + decimal(overflow as nat) + " 张图片超出单结果 "@ + decimal(
            max_images as nat,
        ) + " 张上限，未内联）"@;
        reveal_with_fuel(joined, 2);
        if oversize > 0 && overflow > 0 {
            assert(strings(notes@) =~= seq![too_big, too_many]);
        } else if oversize > 0 {
            assert(strings(notes@) =~= seq![too_big]);
            assert(joined(seq![too_big], "\n"@) =~= too_big);
        } else {
            assert(strings(notes@) =~= seq![too_many]);
            assert(joined(seq![too_many], "\n"@) =~= too_many);
        }
    }
    Some(note)
}

/// The values of the images that are shown, in order.
pub open spec fn accepted_views(v: Seq<(&ChatToolArtifact, Vec<u8>)>) -> Seq<
    (ArtifactView, Seq<u8>),
> {
    Seq::new(v.len(), |i: int| (v[i].0@, v[i].1@))
}

/// The images among the artifacts that are shown, each with its bytes, and what
/// is said of those that were left out.
pub fn select_image_artifacts_for_attach<'a>(
    artifacts: &'a [ChatToolArtifact],
    max_bytes: usize,
    max_images: usize,
) -> (r: (Vec<(&'a ChatToolArtifact, Vec<u8>)>, Option<String>))
    ensures
        ({
            let s = selected_images(artifact_views(artifacts@), max_bytes as int, max_images as int);
            &&& accepted_views(r.0@) == s.accepted
            &&& opt_text(r.1) == left_out_note(
                s.oversize,
                s.overflow,
                max_bytes as nat,
                max_images as nat,
            )
        }),
{
    let ghost all = artifact_views(artifacts@);
    let mut accepted: Vec<(&'a ChatToolArtifact, Vec<u8>)> = Vec::new();
    let mut oversize: usize = 0;
    let mut overflow: usize = 0;
    let mut i: usize = 0;
    let count: usize = artifacts.len();
    assert(all.take(0) =~= Seq::<ArtifactView>::empty());
    assert(accepted_views(accepted@) =~= Seq::<(ArtifactView, Seq<u8>)>::empty());
    while i < count
        invariant
            i <= count == artifacts@.len(),
            all == artifact_views(artifacts@),
            oversize <= i,
            overflow <= i,
            (Selection {
                accepted: accepted_views(accepted@),
                oversize: oversize as nat,
                overflow: overflow as nat,
            }) == selected_images(all.take(i as int), max_bytes as int, max_images as int),
        decreases count - i,
    {
        let artifact = &artifacts[i];
        assert(all.take(i + 1).drop_last() =~= all.take(i as int));
        assert(all.take(i + 1).last() == artifact@);
        let ghost before = accepted@;
        if starts_with(artifact.mime_type.as_str(), "image/") && !artifact.data_url.as_str().is_empty() {
            let payload = match split_once(artifact.data_url.as_str(), ",") {
                Some((_, data)) => data,
                None => artifact.data_url.clone(),
            };
            if let Some(bytes) = base64_decode(payload.as_str()) {
                if bytes.len() > max_bytes {
                    oversize += 1;
                } else if accepted.len() >= max_images {
                    assert(accepted_views(accepted@).len() == accepted@.len());
                    overflow += 1;
                } else {
                    assert(accepted_views(accepted@).len() == accepted@.len());
                    accepted.push((artifact, bytes));
                    assert(accepted_views(accepted@) =~= accepted_views(before).push(
                        (artifact@, bytes@),
                    ));
                }
            }
        }
        i += 1;
    }
    assert(all.take(all.len() as int) =~= all);
    let note = note_left_out(oversize, overflow, max_bytes, max_images);
    (accepted, note)
}

/// Never more images are shown than there is room for, and none of more bytes
/// than the limit; every one of them is among the artifacts, with its bytes.
pub proof fn law_shown_images_are_within_limits(
    artifacts: Seq<ArtifactView>,
    max_bytes: int,
    max_images: int,
)
    requires
        max_images >= 0,
    ensures
        ({
            let s = selected_images(artifacts, max_bytes, max_images);
            &&& s.accepted.len() <= max_images
            &&& forall|i: int|
                0 <= i < s.accepted.len() ==> {
                    &&& (#[trigger] s.accepted[i]).1.len() <= max_bytes
                    &&& artifacts.contains(s.accepted[i].0)
                    &&& image_bytes(s.accepted[i].0) == Some(s.accepted[i].1)
                }
        }),
    decreases artifacts.len(),
{
    if artifacts.len() > 0 {
        let rest = artifacts.drop_last();
        law_shown_images_are_within_limits(rest, max_bytes, max_images);
        let s = selected_images(artifacts, max_bytes, max_images);
        assert forall|i: int| 0 <= i < s.accepted.len() implies artifacts.contains(
            (#[trigger] s.accepted[i]).0,
        ) by {
            let before = selected_images(rest, max_bytes, max_images).accepted;
            if i < before.len() {
                assert(s.accepted[i] == before[i]);
                let j = choose|j: int| 0 <= j < rest.len() && rest[j] == before[i].0;
                assert(artifacts[j] == before[i].0);
            } else {
                assert(artifacts[artifacts.len() - 1] == s.accepted[i].0);
            }
        }
    }
}

/// How many of the artifacts are images that can be decoded.
pub open spec fn image_count(artifacts: Seq<ArtifactView>) -> nat
    decreases artifacts.len(),
{
    if artifacts.len() == 0 {
        0
    } else {
        image_count(artifacts.drop_last()) + if image_bytes(artifacts.last()) is Some {
            1nat
        } else {
            0nat
        }
    }
}

/// No image goes missing without being counted.
pub proof fn law_every_image_is_accounted_for(
    artifacts: Seq<ArtifactView>,
    max_bytes: int,
    max_images: int,
)
    ensures
        ({
            let s = selected_images(artifacts, max_bytes, max_images);
            s.accepted.len() + s.oversize + s.overflow == image_count(artifacts)
        }),
    decreases artifacts.len(),
{
    if artifacts.len() > 0 {
        law_every_image_is_accounted_for(artifacts.drop_last(), max_bytes, max_images);
    }
}

/// A text with a note below it.
pub open spec fn noted(content: Seq<char>, note: Seq<char>) -> Seq<char> {
    if is_blank_text(content) {
        note
    } else {
        trimmed_end(content) + "\n\n"@ + note
    }
}

/// Puts a note below the text of a tool result.
pub fn append_tool_result_note(result: &mut McpToolCallResult, note: &str)
    ensures
        final(result)@ == (ToolResultView {
            content: noted(old(result).content@, note@),
            ..old(result)@
        }),
{
    if is_blank(result.content.as_str()) {
        result.content = copy_str(note);
    } else {
        let kept = trim_end(result.content.as_str());
        result.content = concat3(kept.as_str(), "\n\n", note);
    }
}

/// The file name extension of an image type.
pub open spec fn image_extension(mime: Seq<char>) -> Seq<char> {
    if mime == "image/jpeg"@ || mime == "image/jpg"@ {
        "jpg"@
    } else if mime == "image/gif"@ {
        "gif"@
    } else if mime == "image/webp"@ {
        "webp"@
    } else if mime == "image/bmp"@ {
        "bmp"@
    } else if mime == "image/tiff"@ {
        "tiff"@
    } else {
        "png"@
    }
}

/// The file name extension of an image type.
pub fn image_extension_for_mime(mime: &str) -> (r: &'static str)
    ensures
        r@ == image_extension(mime@),
{
    if str_eq(mime, "image/jpeg") || str_eq(mime, "image/jpg") {
        "jpg"
    } else if str_eq(mime, "image/gif") {
        "gif"
    } else if str_eq(mime, "image/webp") {
        "webp"
    } else if str_eq(mime, "image/bmp") {
        "bmp"
    } else if str_eq(mime, "image/tiff") {
        "tiff"
    } else {
        "png"
    }
}

/// The content item that shows the image of a `data:` URL.
pub fn data_url_image_part(data_url: &str) -> (r: Result<Json, String>)
    ensures
        json_result(r) == (if has_prefix(data_url@, "data:"@) {
            Ok::<JsonView, Seq<char>>(image_item(data_url@))
        } else {
            Err("Artifact data_url is not a data: URL"@)
        }),
{
    if !starts_with(data_url, "data:") {
        return Err(copy_str("Artifact data_url is not a data: URL"));
    }
    Ok(make_image_item(data_url))
}

/// The images among the artifacts, with their bytes, in order.
pub open spec fn images_in(artifacts: Seq<ArtifactView>) -> Seq<(ArtifactView, Seq<u8>)>
    decreases artifacts.len(),
{
    if artifacts.len() == 0 {
        Seq::empty()
    } else {
        match image_bytes(artifacts.last()) {
            Some(bytes) => images_in(artifacts.drop_last()).push((artifacts.last(), bytes)),
            None => images_in(artifacts.drop_last()),
        }
    }
}

/// Images that are small enough and few enough are all shown, in order, and none is left
/// out.
pub proof fn law_small_images_are_all_shown(
    artifacts: Seq<ArtifactView>,
    max_bytes: int,
    max_images: int,
)
    requires
        forall|i: int|
            0 <= i < images_in(artifacts).len() ==> (#[trigger] images_in(artifacts)[i]).1.len()
                <= max_bytes,
        images_in(artifacts).len() <= max_images,
    ensures
        selected_images(artifacts, max_bytes, max_images).accepted == images_in(artifacts),
        selected_images(artifacts, max_bytes, max_images).oversize == 0,
        selected_images(artifacts, max_bytes, max_images).overflow == 0,
    decreases artifacts.len(),
{
    if artifacts.len() > 0 {
        let front = artifacts.drop_last();
        let before = images_in(front);
        let all = images_in(artifacts);
        assert forall|i: int| 0 <= i < before.len() implies (#[trigger] before[i]).1.len()
            <= max_bytes by {
            assert(all[i] == before[i]);
        }
        law_small_images_are_all_shown(front, max_bytes, max_images);
        if image_bytes(artifacts.last()) is Some {
            assert(all[all.len() - 1].1.len() <= max_bytes);
        }
    }
}

/// The images that are shown are the first that are small enough, in order.
pub proof fn law_the_first_images_are_shown(
    artifacts: Seq<ArtifactView>,
    max_bytes: int,
    max_images: int,
)
    requires
        max_images >= 0,
    ensures
        ({
            let small = images_in(artifacts).filter(
                |x: (ArtifactView, Seq<u8>)| x.1.len() <= max_bytes,
            );
            let shown = selected_images(artifacts, max_bytes, max_images).accepted;
            &&& shown.len() == if small.len() <= max_images {
                small.len() as int
            } else {
                max_images
            }
            &&& shown == small.take(shown.len() as int)
        }),
    decreases artifacts.len(),
{
    let p = |x: (ArtifactView, Seq<u8>)| x.1.len() <= max_bytes;
    reveal(Seq::filter);
    if artifacts.len() > 0 {
        let front = artifacts.drop_last();
        law_the_first_images_are_shown(front, max_bytes, max_images);
        let before = images_in(front);
        let all = images_in(artifacts);
        let shown_before = selected_images(front, max_bytes, max_images).accepted;
        let shown = selected_images(artifacts, max_bytes, max_images).accepted;
        match image_bytes(artifacts.last()) {
            Some(bytes) => {
                assert(all.drop_last() =~= before);
                if bytes.len() <= max_bytes {
                    assert(all.filter(p) == before.filter(p).push((artifacts.last(), bytes)));
                } else {
                    assert(all.filter(p) == before.filter(p));
                }
                assert(shown =~= all.filter(p).take(shown.len() as int));
            },
            None => {},
        }
    } else {
        assert(images_in(artifacts).filter(p) =~= Seq::empty());
        assert(selected_images(artifacts, max_bytes, max_images).accepted =~= images_in(
            artifacts,
        ).filter(p).take(0));
    }
}

/// A note goes behind the content, with an empty line between; without content it stands
/// alone. A note is made where something was left out.
pub proof fn law_notes_follow_the_content(
    content: Seq<char>,
    note: Seq<char>,
    oversize: nat,
    overflow: nat,
    max_bytes: nat,
    max_images: nat,
)
    ensures
        is_blank_text(content) ==> noted(content, note) == note,
        !is_blank_text(content) ==> noted(content, note) == trimmed_end(content) + seq!['\n', '\n']
            + note,
        left_out_note(oversize, overflow, max_bytes, max_images) is Some <==> oversize > 0
            || overflow > 0,
{
    reveal_strlit("\n\n");
    assert("\n\n"@ =~= seq!['\n', '\n']);
}

} // verus!
