//! Preparing a conversation for a chat predictor, and checking what the
//! predictor returns: which content parts pass, which media they carry,
//! and which outputs are chat completion chunks.

use vstd::prelude::*;
use crate::chat::{
    content_is_text, content_text, part_text, ChatCompletionContent, ChatCompletionContentPart,
    ChatCompletionContentPartInputAudio, ChatCompletionMessage, ChatCompletionMessageFunctionToolCall,
};
use crate::dtype::Dtype;
use crate::error::MunaError;
use crate::models::owned;
use crate::remote::base64_standard_decoded;
use crate::text::{
    chars_of, decimal_digits, index_from, push_chars, push_str_chars, push_string_chars, split_once, starts_with,
    str_starts_with, string_from_chars, sub_chars,
};

verus! {

/// Maximum size of a fetched image, in bytes.
pub const MAX_IMAGE_FETCH_BYTES: usize = 20971520;

/// What becomes of a content part of a message with media.
#[derive(Debug, Clone, Copy, PartialEq, Eq, Structural)]
pub enum PartAction {
    /// A text or refusal part passes as it is.
    Pass,
    /// An image part is decoded into the images input.
    DecodeImage,
    /// An audio part is decoded into the audios input.
    DecodeAudio,
}

/// What becomes of a content part: text passes; images and audio go to
/// the model's media inputs when it declares them; other media is refused.
pub open spec fn part_action_spec(part: ChatCompletionContentPart, images: bool, audios: bool) -> Result<PartAction, Seq<char>> {
    match part {
        ChatCompletionContentPart::Text { .. } => Ok(PartAction::Pass),
        ChatCompletionContentPart::Refusal { .. } => Ok(PartAction::Pass),
        ChatCompletionContentPart::ImageUrl { .. } => if images {
            Ok(PartAction::DecodeImage)
        } else {
            Err("`image_url` content is not supported by this model."@)
        },
        ChatCompletionContentPart::InputAudio { .. } => if audios {
            Ok(PartAction::DecodeAudio)
        } else {
            Err("`input_audio` content is not supported by this model."@)
        },
        ChatCompletionContentPart::File { .. } => Err("File content parts are not yet supported."@),
    }
}

/// What becomes of a content part, given whether the model declares an
/// images input and an audios input. Refusals are `InvalidInput` errors.
pub fn part_action(part: &ChatCompletionContentPart, images: bool, audios: bool) -> (r: Result<PartAction, MunaError>)
    ensures
        match part_action_spec(*part, images, audios) {
            Ok(a) => r == Ok::<PartAction, MunaError>(a),
            Err(m) => r matches Err(MunaError::InvalidInput(e)) && e@ == m,
        },
{
    match part {
        ChatCompletionContentPart::Text { .. } => Ok(PartAction::Pass),
        ChatCompletionContentPart::Refusal { .. } => Ok(PartAction::Pass),
        ChatCompletionContentPart::ImageUrl { .. } => {
            if images {
                Ok(PartAction::DecodeImage)
            } else {
                Err(MunaError::InvalidInput(owned("`image_url` content is not supported by this model.")))
            }
        },
        ChatCompletionContentPart::InputAudio { .. } => {
            if audios {
                Ok(PartAction::DecodeAudio)
            } else {
                Err(MunaError::InvalidInput(owned("`input_audio` content is not supported by this model.")))
            }
        },
        ChatCompletionContentPart::File { .. } => Err(
            MunaError::InvalidInput(owned("File content parts are not yet supported.")),
        ),
    }
}

/// A medium that a message part asks to have decoded: the URL of an image,
/// or an audio part.
#[derive(Debug, Clone, PartialEq, Eq)]
pub enum MediaRequest {
    Image(String),
    Audio(ChatCompletionContentPartInputAudio),
}

/// A content part as the predictor receives it: a part that passes as it
/// is, or the placeholder of a medium decoded into the media inputs.
#[derive(Debug, Clone, PartialEq, Eq)]
pub enum NormalizedPart {
    Part(ChatCompletionContentPart),
    ImagePlaceholder,
    AudioPlaceholder,
}

/// Normalized content: all-text content as one string, or parts.
#[derive(Debug, Clone, PartialEq, Eq)]
pub enum NormalizedContent {
    Text(String),
    Parts(Vec<NormalizedPart>),
}

/// A message as the predictor receives it.
#[derive(Debug, Clone, PartialEq, Eq)]
pub struct NormalizedMessage {
    pub role: String,
    pub content: Option<NormalizedContent>,
    pub reasoning_content: Option<String>,
    pub tool_calls: Option<Vec<ChatCompletionMessageFunctionToolCall>>,
    pub tool_call_id: Option<String>,
}

/// The kind of a medium or of a placeholder.
pub enum MediaKind {
    Image,
    Audio,
}

/// What a part that passes becomes, and the media it asks for.
pub open spec fn part_step(part: ChatCompletionContentPart, action: PartAction) -> (NormalizedPart, Seq<MediaRequest>) {
    match (action, part) {
        (PartAction::DecodeImage, ChatCompletionContentPart::ImageUrl { image_url }) => (
            NormalizedPart::ImagePlaceholder,
            seq![MediaRequest::Image(image_url.url)],
        ),
        (PartAction::DecodeAudio, ChatCompletionContentPart::InputAudio { input_audio }) => (
            NormalizedPart::AudioPlaceholder,
            seq![MediaRequest::Audio(input_audio)],
        ),
        _ => (NormalizedPart::Part(part), Seq::empty()),
    }
}

/// The parts `parts` in order: the normalized parts and the media asked
/// for up to the first refused part, and that part's refusal.
pub open spec fn parts_scan(parts: Seq<ChatCompletionContentPart>, images: bool, audios: bool) -> (
    Seq<NormalizedPart>,
    Seq<MediaRequest>,
    Option<Seq<char>>,
)
    decreases parts.len(),
{
    if parts.len() == 0 {
        (Seq::empty(), Seq::empty(), None)
    } else {
        let prev = parts_scan(parts.drop_last(), images, audios);
        if prev.2 is Some {
            prev
        } else {
            match part_action_spec(parts.last(), images, audios) {
                Err(m) => (prev.0, prev.1, Some(m)),
                Ok(a) => (prev.0.push(part_step(parts.last(), a).0), prev.1 + part_step(parts.last(), a).1, None),
            }
        }
    }
}

/// The media that a message asks for, and its first refused part.
pub open spec fn message_scan(message: ChatCompletionMessage, images: bool, audios: bool) -> (
    Seq<MediaRequest>,
    Option<Seq<char>>,
) {
    match message.content {
        Some(ChatCompletionContent::Parts(parts)) => (
            parts_scan(parts@, images, audios).1,
            parts_scan(parts@, images, audios).2,
        ),
        _ => (Seq::empty(), None),
    }
}

/// The messages in order: the media asked for up to the first refused
/// part, and that part's refusal.
pub open spec fn conversation_scan(messages: Seq<ChatCompletionMessage>, images: bool, audios: bool) -> (
    Seq<MediaRequest>,
    Option<Seq<char>>,
)
    decreases messages.len(),
{
    if messages.len() == 0 {
        (Seq::empty(), None)
    } else {
        let prev = conversation_scan(messages.drop_last(), images, audios);
        if prev.1 is Some {
            prev
        } else {
            let m = message_scan(messages.last(), images, audios);
            (prev.0 + m.0, m.1)
        }
    }
}

/// `out` is message `m` normalized: role, reasoning, tool calls and tool
/// call id carried over; all-text content flattened to one string; other
/// content as its normalized parts.
pub open spec fn normalized_message_is(out: NormalizedMessage, m: ChatCompletionMessage, images: bool, audios: bool) -> bool {
    &&& out.role == m.role
    &&& out.reasoning_content == m.reasoning_content
    &&& out.tool_calls == m.tool_calls
    &&& out.tool_call_id == m.tool_call_id
    &&& match m.content {
        None => out.content is None,
        Some(c) => if content_is_text(c) {
            out.content matches Some(NormalizedContent::Text(t)) && t@ == content_text(c)
        } else {
            match c {
                ChatCompletionContent::Parts(parts) => out.content matches Some(NormalizedContent::Parts(np)) && np@
                    == parts_scan(parts@, images, audios).0,
                ChatCompletionContent::Text(_) => false,
            }
        },
    }
}

/// The kinds of the placeholders among `parts`, in order.
pub open spec fn placeholder_kinds(parts: Seq<NormalizedPart>) -> Seq<MediaKind>
    decreases parts.len(),
{
    if parts.len() == 0 {
        Seq::empty()
    } else {
        let prev = placeholder_kinds(parts.drop_last());
        match parts.last() {
            NormalizedPart::ImagePlaceholder => prev.push(MediaKind::Image),
            NormalizedPart::AudioPlaceholder => prev.push(MediaKind::Audio),
            NormalizedPart::Part(_) => prev,
        }
    }
}

/// The kinds of the placeholders of a normalized message, in order.
pub open spec fn message_kinds(m: NormalizedMessage) -> Seq<MediaKind> {
    match m.content {
        Some(NormalizedContent::Parts(parts)) => placeholder_kinds(parts@),
        _ => Seq::empty(),
    }
}

/// The kinds of the placeholders of normalized messages, in message then
/// part order.
pub open spec fn conversation_kinds(ms: Seq<NormalizedMessage>) -> Seq<MediaKind>
    decreases ms.len(),
{
    if ms.len() == 0 {
        Seq::empty()
    } else {
        conversation_kinds(ms.drop_last()) + message_kinds(ms.last())
    }
}

/// The kind of a medium.
pub open spec fn media_kind(r: MediaRequest) -> MediaKind {
    match r {
        MediaRequest::Image(_) => MediaKind::Image,
        MediaRequest::Audio(_) => MediaKind::Audio,
    }
}

/// The kinds of media, in order.
pub open spec fn media_kinds(media: Seq<MediaRequest>) -> Seq<MediaKind> {
    media.map_values(|r: MediaRequest| media_kind(r))
}

proof fn lemma_media_kinds_concat(a: Seq<MediaRequest>, b: Seq<MediaRequest>)
    ensures
        media_kinds(a + b) == media_kinds(a) + media_kinds(b),
{
    assert(media_kinds(a + b) =~= media_kinds(a) + media_kinds(b));
}

/// The placeholders of the normalized parts match the media asked for,
/// kind for kind and in order.
proof fn lemma_parts_scan_kinds(parts: Seq<ChatCompletionContentPart>, images: bool, audios: bool)
    ensures
        placeholder_kinds(parts_scan(parts, images, audios).0) == media_kinds(parts_scan(parts, images, audios).1),
    decreases parts.len(),
{
    if parts.len() > 0 {
        lemma_parts_scan_kinds(parts.drop_last(), images, audios);
        let prev = parts_scan(parts.drop_last(), images, audios);
        if prev.2 is None {
            match part_action_spec(parts.last(), images, audios) {
                Err(_) => {},
                Ok(a) => {
                    let step = part_step(parts.last(), a);
                    lemma_media_kinds_concat(prev.1, step.1);
                    assert(prev.0.push(step.0).drop_last() =~= prev.0);
                    assert(media_kinds(step.1) =~= match step.0 {
                        NormalizedPart::ImagePlaceholder => seq![MediaKind::Image],
                        NormalizedPart::AudioPlaceholder => seq![MediaKind::Audio],
                        NormalizedPart::Part(_) => Seq::<MediaKind>::empty(),
                    });
                    assert(placeholder_kinds(prev.0.push(step.0)) =~= placeholder_kinds(prev.0) + media_kinds(step.1));
                },
            }
        }
    }
}

/// All-text parts ask for no media and refuse nothing.
proof fn lemma_text_parts_scan(parts: Seq<ChatCompletionContentPart>, images: bool, audios: bool)
    requires
        forall|i: int| 0 <= i < parts.len() ==> (#[trigger] part_text(parts[i])) is Some,
    ensures
        parts_scan(parts, images, audios).1 == Seq::<MediaRequest>::empty(),
        parts_scan(parts, images, audios).2 is None,
    decreases parts.len(),
{
    if parts.len() > 0 {
        assert(part_text(parts[parts.len() - 1]) is Some);
        lemma_text_parts_scan(parts.drop_last(), images, audios);
        assert(Seq::<MediaRequest>::empty() + Seq::<MediaRequest>::empty() =~= Seq::<MediaRequest>::empty());
    }
}

/// Once a part is refused, later parts change nothing.
proof fn lemma_parts_scan_stops(parts: Seq<ChatCompletionContentPart>, k: int, images: bool, audios: bool)
    requires
        0 <= k <= parts.len(),
        parts_scan(parts.take(k), images, audios).2 is Some,
    ensures
        parts_scan(parts, images, audios) == parts_scan(parts.take(k), images, audios),
    decreases parts.len() - k,
{
    if k < parts.len() {
        assert(parts.drop_last().take(k) =~= parts.take(k));
        lemma_parts_scan_stops(parts.drop_last(), k, images, audios);
    } else {
        assert(parts.take(k) =~= parts);
    }
}

/// Once a part is refused, later messages change nothing.
proof fn lemma_conversation_scan_stops(ms: Seq<ChatCompletionMessage>, k: int, images: bool, audios: bool)
    requires
        0 <= k <= ms.len(),
        conversation_scan(ms.take(k), images, audios).1 is Some,
    ensures
        conversation_scan(ms, images, audios) == conversation_scan(ms.take(k), images, audios),
    decreases ms.len() - k,
{
    if k < ms.len() {
        assert(ms.drop_last().take(k) =~= ms.take(k));
        lemma_conversation_scan_stops(ms.drop_last(), k, images, audios);
    } else {
        assert(ms.take(k) =~= ms);
    }
}

/// Whether every part is an audio part.
pub open spec fn all_audio(parts: Seq<ChatCompletionContentPart>) -> bool {
    forall|k: int| 0 <= k < parts.len() ==> (#[trigger] parts[k]) is InputAudio
}

/// Whether every part is an image part.
pub open spec fn all_images(parts: Seq<ChatCompletionContentPart>) -> bool {
    forall|k: int| 0 <= k < parts.len() ==> (#[trigger] parts[k]) is ImageUrl
}

/// Audio parts go to a model's audios input exactly when it declares one,
/// whatever its other inputs: each becomes an audio placeholder and asks
/// for its audio, in order. A model without an audios input refuses the
/// first of them.
pub proof fn lemma_audio_parts_follow_the_audios_input(parts: Seq<ChatCompletionContentPart>, images: bool, audios: bool)
    requires
        all_audio(parts),
    ensures
        audios ==> parts_scan(parts, images, audios) == (
            Seq::new(parts.len(), |k: int| NormalizedPart::AudioPlaceholder),
            Seq::new(parts.len(), |k: int| MediaRequest::Audio(parts[k]->input_audio)),
            None::<Seq<char>>,
        ),
        !audios && parts.len() > 0 ==> parts_scan(parts, images, audios) == (
            Seq::<NormalizedPart>::empty(),
            Seq::<MediaRequest>::empty(),
            Some("`input_audio` content is not supported by this model."@),
        ),
    decreases parts.len(),
{
    if parts.len() > 0 {
        let prev = parts.drop_last();
        assert(all_audio(prev)) by {
            assert forall|k: int| 0 <= k < prev.len() implies (#[trigger] prev[k]) is InputAudio by {
                assert(prev[k] == parts[k]);
            }
        }
        lemma_audio_parts_follow_the_audios_input(prev, images, audios);
        assert(parts[parts.len() - 1] is InputAudio);
        if audios {
            assert(Seq::new(prev.len(), |k: int| NormalizedPart::AudioPlaceholder).push(NormalizedPart::AudioPlaceholder)
                =~= Seq::new(parts.len(), |k: int| NormalizedPart::AudioPlaceholder));
            assert(Seq::new(prev.len(), |k: int| MediaRequest::Audio(prev[k]->input_audio)) + seq![
                MediaRequest::Audio(parts.last()->input_audio),
            ] =~= Seq::new(parts.len(), |k: int| MediaRequest::Audio(parts[k]->input_audio)));
        } else if prev.len() == 0 {
            assert(parts_scan(prev, images, audios) == (
                Seq::<NormalizedPart>::empty(),
                Seq::<MediaRequest>::empty(),
                None::<Seq<char>>,
            ));
        }
    }
}

/// Image parts go to a model's images input exactly when it declares one,
/// whatever its other inputs: each becomes an image placeholder and asks
/// for its URL, in order. A model without an images input refuses the
/// first of them.
pub proof fn lemma_image_parts_follow_the_images_input(parts: Seq<ChatCompletionContentPart>, images: bool, audios: bool)
    requires
        all_images(parts),
    ensures
        images ==> parts_scan(parts, images, audios) == (
            Seq::new(parts.len(), |k: int| NormalizedPart::ImagePlaceholder),
            Seq::new(parts.len(), |k: int| MediaRequest::Image(parts[k]->image_url.url)),
            None::<Seq<char>>,
        ),
        !images && parts.len() > 0 ==> parts_scan(parts, images, audios) == (
            Seq::<NormalizedPart>::empty(),
            Seq::<MediaRequest>::empty(),
            Some("`image_url` content is not supported by this model."@),
        ),
    decreases parts.len(),
{
    if parts.len() > 0 {
        let prev = parts.drop_last();
        assert(all_images(prev)) by {
            assert forall|k: int| 0 <= k < prev.len() implies (#[trigger] prev[k]) is ImageUrl by {
                assert(prev[k] == parts[k]);
            }
        }
        lemma_image_parts_follow_the_images_input(prev, images, audios);
        assert(parts[parts.len() - 1] is ImageUrl);
        if images {
            assert(Seq::new(prev.len(), |k: int| NormalizedPart::ImagePlaceholder).push(NormalizedPart::ImagePlaceholder)
                =~= Seq::new(parts.len(), |k: int| NormalizedPart::ImagePlaceholder));
            assert(Seq::new(prev.len(), |k: int| MediaRequest::Image(prev[k]->image_url.url)) + seq![
                MediaRequest::Image(parts.last()->image_url.url),
            ] =~= Seq::new(parts.len(), |k: int| MediaRequest::Image(parts[k]->image_url.url)));
        } else if prev.len() == 0 {
            assert(parts_scan(prev, images, audios) == (
                Seq::<NormalizedPart>::empty(),
                Seq::<MediaRequest>::empty(),
                None::<Seq<char>>,
            ));
        }
    }
}

/// Normalizes the parts of one message, appending the media they ask for.
#[verifier::loop_isolation(false)]
fn normalize_parts(parts: Vec<ChatCompletionContentPart>, images: bool, audios: bool, media: &mut Vec<MediaRequest>) -> (r: (
    Vec<NormalizedPart>,
    Option<MunaError>,
))
    ensures
        final(media)@ == old(media)@ + parts_scan(parts@, images, audios).1,
        r.0@ == parts_scan(parts@, images, audios).0,
        match parts_scan(parts@, images, audios).2 {
            Some(e) => r.1 matches Some(MunaError::InvalidInput(m)) && m@ == e,
            None => r.1 is None,
        },
{
    let ghost all = parts@;
    let ghost start = media@;
    let n = parts.len();
    let mut rest = parts;
    let mut out: Vec<NormalizedPart> = Vec::new();
    let mut i: usize = 0;
    assert(all.take(0) =~= Seq::<ChatCompletionContentPart>::empty());
    assert(start + Seq::<MediaRequest>::empty() =~= start);
    while i < n
        invariant
            n == all.len(),
            i <= n,
            rest@ == all.skip(i as int),
            out@ == parts_scan(all.take(i as int), images, audios).0,
            media@ == start + parts_scan(all.take(i as int), images, audios).1,
            parts_scan(all.take(i as int), images, audios).2 is None,
        decreases n - i,
    {
        let part = rest.remove(0);
        assert(part == all[i as int]);
        assert(rest@ =~= all.skip(i + 1));
        assert(all.take(i + 1).drop_last() =~= all.take(i as int));
        assert(all.take(i + 1).last() == all[i as int]);
        let ghost prev = parts_scan(all.take(i as int), images, audios);
        match part_action(&part, images, audios) {
            Err(e) => {
                proof {
                    let t = parts_scan(all.take(i + 1), images, audios);
                    assert(part_action_spec(all[i as int], images, audios) is Err);
                    assert(t.0 == prev.0 && t.1 == prev.1 && t.2 is Some);
                    lemma_parts_scan_stops(all, i + 1, images, audios);
                    assert(media@ =~= start + parts_scan(all, images, audios).1);
                }
                return (out, Some(e));
            },
            Ok(action) => {
                let ghost step = part_step(part, action);
                match (action, part) {
                    (PartAction::DecodeImage, ChatCompletionContentPart::ImageUrl { image_url }) => {
                        media.push(MediaRequest::Image(image_url.url));
                        out.push(NormalizedPart::ImagePlaceholder);
                    },
                    (PartAction::DecodeAudio, ChatCompletionContentPart::InputAudio { input_audio }) => {
                        media.push(MediaRequest::Audio(input_audio));
                        out.push(NormalizedPart::AudioPlaceholder);
                    },
                    (_, part) => {
                        out.push(NormalizedPart::Part(part));
                    },
                }
                assert(out@ =~= prev.0.push(step.0));
                assert(media@ =~= start + (prev.1 + step.1));
            },
        }
        i = i + 1;
    }
    assert(all.take(n as int) =~= all);
    (out, None)
}

/// Normalizes a conversation for a chat predictor. Messages keep their
/// role, reasoning, tool calls and tool call id; all-text content becomes
/// one string; other content keeps its text and refusal parts, and each
/// image or audio part the model takes becomes a placeholder whose medium
/// is asked for, in order. The nth placeholder, in message then part order,
/// stands for the nth medium. The media asked for before the first refused
/// part come back with the refusal, so that they are decoded first.
#[verifier::loop_isolation(false)]
pub fn normalize_messages(messages: Vec<ChatCompletionMessage>, images: bool, audios: bool) -> (r: (
    Vec<MediaRequest>,
    Result<Vec<NormalizedMessage>, MunaError>,
))
    ensures
        r.0@ == conversation_scan(messages@, images, audios).0,
        match conversation_scan(messages@, images, audios).1 {
            Some(e) => r.1 matches Err(MunaError::InvalidInput(m)) && m@ == e,
            None => r.1 matches Ok(ms) && ms@.len() == messages@.len() && (forall|i: int|
                0 <= i < ms@.len() ==> normalized_message_is(#[trigger] ms@[i], messages@[i], images, audios))
                && conversation_kinds(ms@) == media_kinds(r.0@),
        },
{
    let ghost all = messages@;
    let n = messages.len();
    let mut rest = messages;
    let mut out: Vec<NormalizedMessage> = Vec::new();
    let mut media: Vec<MediaRequest> = Vec::new();
    let mut i: usize = 0;
    assert(all.take(0) =~= Seq::<ChatCompletionMessage>::empty());
    assert(media_kinds(Seq::<MediaRequest>::empty()) =~= Seq::<MediaKind>::empty());
    while i < n
        invariant
            n == all.len(),
            i <= n,
            rest@ == all.skip(i as int),
            media@ == conversation_scan(all.take(i as int), images, audios).0,
            conversation_scan(all.take(i as int), images, audios).1 is None,
            out@.len() == i,
            forall|k: int| 0 <= k < i ==> normalized_message_is(#[trigger] out@[k], all[k], images, audios),
            conversation_kinds(out@) == media_kinds(media@),
        decreases n - i,
    {
        let message = rest.remove(0);
        assert(message == all[i as int]);
        assert(rest@ =~= all.skip(i + 1));
        assert(all.take(i + 1).drop_last() =~= all.take(i as int));
        assert(all.take(i + 1).last() == all[i as int]);
        let ghost before = media@;
        let ghost m = message;
        let ChatCompletionMessage { role, content, reasoning_content, tool_calls, tool_call_id } = message;
        let normalized = match content {
            None => None,
            Some(c) => {
                if c.is_text() {
                    proof {
                        if let ChatCompletionContent::Parts(parts) = &c {
                            lemma_text_parts_scan(parts@, images, audios);
                        }
                        assert(before + Seq::<MediaRequest>::empty() =~= before);
                    }
                    Some(NormalizedContent::Text(c.flatten()))
                } else {
                    match c {
                        ChatCompletionContent::Text(s) => Some(NormalizedContent::Text(s)),
                        ChatCompletionContent::Parts(parts) => {
                            let ghost ps = parts@;
                            let (nps, refusal) = normalize_parts(parts, images, audios, &mut media);
                            proof {
                                lemma_parts_scan_kinds(ps, images, audios);
                            }
                            match refusal {
                                Some(e) => {
                                    proof {
                                        assert(message_scan(m, images, audios) == (
                                            parts_scan(ps, images, audios).1,
                                            parts_scan(ps, images, audios).2,
                                        ));
                                        let t = conversation_scan(all.take(i + 1), images, audios);
                                        assert(t.0 == before + parts_scan(ps, images, audios).1);
                                        assert(t.1 is Some);
                                        lemma_conversation_scan_stops(all, i + 1, images, audios);
                                    }
                                    return (media, Err(e));
                                },
                                None => Some(NormalizedContent::Parts(nps)),
                            }
                        },
                    }
                }
            },
        };
        let nm = NormalizedMessage { role, content: normalized, reasoning_content, tool_calls, tool_call_id };
        proof {
            lemma_media_kinds_concat(before, message_scan(m, images, audios).0);
            assert(media@ =~= before + message_scan(m, images, audios).0);
        }
        proof {
            assert(normalized_message_is(nm, m, images, audios));
            assert(message_kinds(nm) == media_kinds(message_scan(m, images, audios).0));
        }
        let ghost out_before = out@;
        out.push(nm);
        proof {
            assert(out@.drop_last() =~= out_before);
            assert(out@.last() == nm);
        }
        i = i + 1;
    }
    assert(all.take(n as int) =~= all);
    (media, Ok(out))
}

/// The media type of an image data URL's metadata: the text before its
/// first `;`, `image/*` when that is empty.
pub open spec fn image_mime_of(meta: Seq<char>) -> Seq<char> {
    let first = if index_from(meta, ';', 0) < meta.len() {
        meta.subrange(0, index_from(meta, ';', 0))
    } else {
        meta
    };
    if first.len() == 0 {
        "image/*"@
    } else {
        first
    }
}

/// An image URL that is a data URL: `None` for any other URL (it is then
/// fetched); else the decoded bytes and media type, or why it is refused:
/// no `,` after `data:`, or a payload that is not base64.
pub fn image_data_url(url: &str) -> (r: Option<Result<(Vec<u8>, String), MunaError>>)
    ensures
        !starts_with(url@, "data:"@) <==> r is None,
        starts_with(url@, "data:"@) ==> match split_once(url@.skip(5), ',') {
            None => r matches Some(Err(MunaError::InvalidInput(m))) && m@
                == "Malformed data URL in `image_url` content part."@,
            Some((meta, payload)) => match base64_standard_decoded(payload) {
                Ok(bytes) => r matches Some(Ok((b, mime))) && b@ == bytes && mime@ == image_mime_of(meta),
                Err(e) => r matches Some(Err(MunaError::InvalidInput(m))) && m@ == "Failed to decode image data URL: "@
                    + e,
            },
        },
{
    if !str_starts_with(url, "data:") {
        return None;
    }
    proof {
        reveal_strlit("data:");
    }
    let v = chars_of(url);
    let rest = sub_chars(&v, 5, v.len());
    assert(rest@ =~= url@.skip(5));
    let (meta, payload) = match crate::text::split_once_chars(&rest, ',') {
        Some(parts) => parts,
        None => {
            return Some(Err(MunaError::InvalidInput(owned("Malformed data URL in `image_url` content part."))));
        },
    };
    let semi = crate::text::find_char(&meta, ';', 0);
    proof {
        crate::text::lemma_index_from_bounds(meta@, ';', 0);
    }
    let first = sub_chars(&meta, 0, semi);
    let mime = if first.len() == 0 {
        owned("image/*")
    } else {
        string_from_chars(first.as_slice())
    };
    assert(first@ =~= if index_from(meta@, ';', 0) < meta@.len() {
        meta@.subrange(0, index_from(meta@, ';', 0))
    } else {
        meta@
    });
    let encoded = string_from_chars(payload.as_slice());
    match crate::remote::decode_base64(encoded.as_str()) {
        Ok(bytes) => Some(Ok((bytes, mime))),
        Err(e) => {
            let mut out: Vec<char> = Vec::new();
            push_str_chars(&mut out, "Failed to decode image data URL: ");
            push_string_chars(&mut out, &e);
            Some(Err(MunaError::InvalidInput(string_from_chars(out.as_slice()))))
        },
    }
}

/// A fetched image may not exceed `MAX_IMAGE_FETCH_BYTES`.
pub fn check_fetched_image(url: &str, size: usize) -> (r: Result<(), MunaError>)
    ensures
        size <= MAX_IMAGE_FETCH_BYTES ==> r is Ok,
        size > MAX_IMAGE_FETCH_BYTES ==> (r matches Err(MunaError::InvalidInput(m)) && m@ == "Image at "@ + url@
            + " exceeds the maximum size of 20971520 bytes."@),
{
    if size <= MAX_IMAGE_FETCH_BYTES {
        return Ok(());
    }
    let mut out: Vec<char> = Vec::new();
    push_str_chars(&mut out, "Image at ");
    push_str_chars(&mut out, url);
    push_str_chars(&mut out, " exceeds the maximum size of 20971520 bytes.");
    Err(MunaError::InvalidInput(string_from_chars(out.as_slice())))
}

/// The decoded samples and media type of an audio content part, for a
/// model whose audios input has the declared sample rate: an error when it
/// declares none, or when the data is not base64.
pub fn audio_input(input_audio: &ChatCompletionContentPartInputAudio, sample_rate: Option<u32>) -> (r: Result<(Vec<u8>, String), MunaError>)
    ensures
        match sample_rate {
            None => r matches Err(MunaError::Prediction(m)) && m@
                == "Model does not declare a sample rate for its audio input."@,
            Some(rate) => match base64_standard_decoded(input_audio.data@) {
                Ok(bytes) => r matches Ok((b, mime)) && b@ == bytes && mime@ == "audio/"@ + input_audio.format@
                    + ";rate="@ + decimal_digits(rate as nat),
                Err(e) => r matches Err(MunaError::InvalidInput(m)) && m@ == "Failed to decode audio data: "@ + e,
            },
        },
{
    let rate = match sample_rate {
        Some(rate) => rate,
        None => {
            return Err(MunaError::Prediction(owned("Model does not declare a sample rate for its audio input.")));
        },
    };
    let data = match crate::remote::decode_base64(input_audio.data.as_str()) {
        Ok(bytes) => bytes,
        Err(e) => {
            let mut out: Vec<char> = Vec::new();
            push_str_chars(&mut out, "Failed to decode audio data: ");
            push_string_chars(&mut out, &e);
            return Err(MunaError::InvalidInput(string_from_chars(out.as_slice())));
        },
    };
    let mut mime: Vec<char> = Vec::new();
    push_str_chars(&mut mime, "audio/");
    push_string_chars(&mut mime, &input_audio.format);
    push_str_chars(&mut mime, ";rate=");
    push_chars(&mut mime, &crate::text::decimal_chars(rate as u64));
    Ok((data, string_from_chars(mime.as_slice())))
}

/// Checks the outputs of one prediction of a chat predictor: its error,
/// else results, else a result at `index`, which must be a dict.
/// `result_types` holds the data type of each result; `what` names the
/// expected output in the last message.
pub fn check_prediction_output(
    model: &str,
    error: Option<&str>,
    result_types: Option<&[Dtype]>,
    index: usize,
    what: &str,
) -> (r: Result<(), MunaError>)
    ensures
        match error {
            Some(e) => r matches Err(MunaError::Prediction(m)) && m@ == e@,
            None => match result_types {
                None => r matches Err(MunaError::Prediction(m)) && m@ == model@ + " returned no results"@,
                Some(ts) => if index >= ts@.len() {
                    r matches Err(MunaError::Prediction(m)) && m@ == model@ + " returned fewer results than expected"@
                } else if ts@[index as int] != Dtype::Dict {
                    r matches Err(MunaError::Prediction(m)) && m@ == model@ + " returned non-dict "@ + what@ + " output"@
                } else {
                    r is Ok
                },
            },
        },
{
    match error {
        Some(e) => {
            return Err(MunaError::Prediction(owned(e)));
        },
        None => {},
    }
    let ts = match result_types {
        Some(ts) => ts,
        None => {
            return Err(MunaError::Prediction(crate::delegate::tag_message(model, " returned no results")));
        },
    };
    if index >= ts.len() {
        return Err(MunaError::Prediction(crate::delegate::tag_message(model, " returned fewer results than expected")));
    }
    if ts[index] != Dtype::Dict {
        let mut out: Vec<char> = Vec::new();
        push_str_chars(&mut out, model);
        push_str_chars(&mut out, " returned non-dict ");
        push_str_chars(&mut out, what);
        push_str_chars(&mut out, " output");
        return Err(MunaError::Prediction(string_from_chars(out.as_slice())));
    }
    Ok(())
}

/// What a prediction result is, as the embeddings surface reads it: a
/// `float32` tensor, a tensor of another data type, or no tensor.
#[derive(Debug, Clone, Copy, PartialEq, Eq, Structural)]
pub enum EmbeddingValueKind {
    Float32Tensor,
    OtherTensor,
    NotTensor,
}

/// Checks the outputs of an embedding prediction: its error, else results,
/// else a result at `index`, which must be a `float32` tensor. `results`
/// holds the kind of each result.
pub fn check_embedding_output(
    model: &str,
    error: Option<&str>,
    results: Option<&[EmbeddingValueKind]>,
    index: usize,
) -> (r: Result<(), MunaError>)
    ensures
        match error {
            Some(e) => r matches Err(MunaError::Prediction(m)) && m@ == e@,
            None => match results {
                None => r matches Err(MunaError::Prediction(m)) && m@ == model@ + " returned no results"@,
                Some(ks) => if index >= ks@.len() {
                    r matches Err(MunaError::Prediction(m)) && m@ == model@ + " returned fewer results than expected"@
                } else {
                    match ks@[index as int] {
                        EmbeddingValueKind::Float32Tensor => r is Ok,
                        EmbeddingValueKind::OtherTensor => r matches Err(MunaError::Prediction(m)) && m@ == model@
                            + " returned embedding matrix with invalid data type"@,
                        EmbeddingValueKind::NotTensor => r matches Err(MunaError::Prediction(m)) && m@ == model@
                            + " returned non-tensor embedding value"@,
                    }
                },
            },
        },
{
    match error {
        Some(e) => {
            return Err(MunaError::Prediction(owned(e)));
        },
        None => {},
    }
    let ks = match results {
        Some(ks) => ks,
        None => {
            return Err(MunaError::Prediction(crate::delegate::tag_message(model, " returned no results")));
        },
    };
    if index >= ks.len() {
        return Err(MunaError::Prediction(crate::delegate::tag_message(model, " returned fewer results than expected")));
    }
    match ks[index] {
        EmbeddingValueKind::Float32Tensor => Ok(()),
        EmbeddingValueKind::OtherTensor => Err(
            MunaError::Prediction(crate::delegate::tag_message(model, " returned embedding matrix with invalid data type")),
        ),
        EmbeddingValueKind::NotTensor => Err(
            MunaError::Prediction(crate::delegate::tag_message(model, " returned non-tensor embedding value")),
        ),
    }
}

/// A dict output is a chat completion chunk only when its `object` field
/// is the string `chat.completion.chunk`.
pub fn check_chunk_object(object: Option<&str>) -> (r: Result<(), MunaError>)
    ensures
        match object {
            Some(o) => o@ == "chat.completion.chunk"@,
            None => false,
        } ==> r is Ok,
        !(match object {
            Some(o) => o@ == "chat.completion.chunk"@,
            None => false,
        }) ==> (r matches Err(MunaError::Prediction(m)) && m@
            == "Failed to parse chat completion chunk from model output. Chat predictors must yield `ChatCompletionChunk` outputs."@),
{
    let ok = match object {
        Some(o) => crate::text::str_eq(o, "chat.completion.chunk"),
        None => false,
    };
    if ok {
        Ok(())
    } else {
        Err(
            MunaError::Prediction(
                owned(
                    "Failed to parse chat completion chunk from model output. Chat predictors must yield `ChatCompletionChunk` outputs.",
                ),
            ),
        )
    }
}

/// The parameter that receives the tools of a request: none when the
/// request uses no tools; an error when it does and the model declares no
/// tools input.
pub fn tools_parameter(model: &str, tools_param_name: &Option<String>, uses_tools: bool) -> (r: Result<Option<String>, MunaError>)
    ensures
        !uses_tools ==> r matches Ok(None),
        uses_tools ==> match tools_param_name {
            Some(name) => r matches Ok(Some(n)) && n@ == name@,
            None => r matches Err(MunaError::InvalidInput(m)) && m@ == model@
                + " does not support tool calling because it does not declare a tools input parameter."@,
        },
{
    if !uses_tools {
        return Ok(None);
    }
    match tools_param_name {
        Some(name) => Ok(Some(name.clone())),
        None => Err(
            MunaError::InvalidInput(
                crate::delegate::tag_message(
                    model,
                    " does not support tool calling because it does not declare a tools input parameter.",
                ),
            ),
        ),
    }
}


/// `xs` as Rust's `{:?}` writes a slice of integers: `[1, 2, 3]`.
pub open spec fn debug_ints(xs: Seq<i32>) -> Seq<char> {
    "["@ + joined_ints(xs) + "]"@
}

/// The decimal renderings of `xs`, separated by `, `.
pub open spec fn joined_ints(xs: Seq<i32>) -> Seq<char>
    decreases xs.len(),
{
    if xs.len() == 0 {
        Seq::empty()
    } else if xs.len() == 1 {
        crate::text::signed_decimal(xs[0] as int)
    } else {
        joined_ints(xs.drop_last()) + ", "@ + crate::text::signed_decimal(xs.last() as int)
    }
}

/// The rows of an embedding matrix of shape `shape` stored flat, row after
/// row: the start and end of each of its `shape[0]` rows of `shape[1]`
/// values (none when there are no rows, whatever the row length). A shape
/// that is not two-dimensional is an error.
pub fn embedding_rows(model: &str, shape: &[i32], len: usize) -> (r: Result<Vec<(usize, usize)>, MunaError>)
    requires
        shape@.len() == 2 ==> 0 <= shape@[0] && (shape@[0] > 0 ==> 0 <= shape@[1] && shape@[0] * shape@[1] <= len),
    ensures
        shape@.len() != 2 ==> (r matches Err(MunaError::Prediction(m)) && m@ == model@
            + " returned embedding matrix with invalid shape: "@ + debug_ints(shape@)),
        shape@.len() == 2 ==> (r matches Ok(rows) && rows@.len() == shape@[0] && forall|i: int|
            0 <= i < rows@.len() ==> #[trigger] rows@[i] == ((i * shape@[1]) as usize, (i * shape@[1] + shape@[1]) as usize)),
{
    if shape.len() != 2 {
        let mut out: Vec<char> = Vec::new();
        push_str_chars(&mut out, model);
        push_str_chars(&mut out, " returned embedding matrix with invalid shape: [");
        let mut i: usize = 0;
        let ghost head = out@;
        assert(shape@.take(0) =~= Seq::<i32>::empty());
        while i < shape.len()
            invariant
                i <= shape.len(),
                out@ == head + joined_ints(shape@.take(i as int)),
            decreases shape.len() - i,
        {
            assert(shape@.take(i + 1).drop_last() =~= shape@.take(i as int));
            if i > 0 {
                push_str_chars(&mut out, ", ");
            }
            crate::text::push_signed_decimal(&mut out, shape[i] as i64);
            i = i + 1;
            assert(out@ =~= head + joined_ints(shape@.take(i as int)));
        }
        assert(shape@.take(shape.len() as int) =~= shape@);
        push_str_chars(&mut out, "]");
        proof {
            reveal_strlit(" returned embedding matrix with invalid shape: [");
            reveal_strlit(" returned embedding matrix with invalid shape: ");
            reveal_strlit("[");
            assert(" returned embedding matrix with invalid shape: ["@ =~= " returned embedding matrix with invalid shape: "@ + "["@);
            assert(out@ =~= model@ + " returned embedding matrix with invalid shape: "@ + debug_ints(shape@));
        }
        return Err(MunaError::Prediction(string_from_chars(out.as_slice())));
    }
    if shape[0] == 0 {
        return Ok(Vec::new());
    }
    let n = shape[0] as usize;
    let d = shape[1] as usize;
    let mut rows: Vec<(usize, usize)> = Vec::new();
    let mut i: usize = 0;
    while i < n
        invariant
            i <= n,
            n == shape@[0],
            d == shape@[1],
            n * d <= len,
            rows@.len() == i,
            forall|k: int| 0 <= k < i ==> #[trigger] rows@[k] == ((k * d) as usize, (k * d + d) as usize),
        decreases n - i,
    {
        assert(i * d + d <= n * d) by (nonlinear_arith)
            requires
                i < n,
        ;
        let start = i * d;
        rows.push((start, start + d));
        i = i + 1;
    }
    Ok(rows)
}
} // verus!
