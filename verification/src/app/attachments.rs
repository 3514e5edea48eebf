//! Telegram attachments: which file a message carries, and where it is saved.
//!
//! Documents, voice notes, audio and video are saved below the agent's work
//! directory, as `.deskd/attachments/<chat>/<message>/<file>`; files over the size
//! limit are not. Photos do not come here.

use crate::infra::paths::path_join;
use crate::infra::paths::path_joined;
use crate::infra::paths::path_of;
use crate::text::CharClass;
use crate::text::byte_len;
use crate::text::concat2;
use crate::text::concat3;
use crate::text::control;
use crate::text::decimal;
use crate::text::fitting;
use crate::text::format_i64;
use crate::text::from_chars;
use crate::text::head_within;
use crate::text::in_class;
use crate::text::is_control;
use crate::text::is_digit;
use crate::text::is_white;
use crate::text::lemma_ascii_len;
use crate::text::lemma_byte_len_concat;
use crate::text::lemma_byte_len_first;
use crate::text::lemma_decimal_value;
use crate::text::lemma_fitting;
use crate::text::prefix_within;
use crate::text::signed_decimal;
use crate::text::skip_class;
use crate::text::skip_class_back;
use crate::text::text_eq;
use crate::text::text_len;
use crate::text::to_chars;
use crate::text::trimmed;
use crate::text::trimmed_end;
use crate::text::trimmed_start;
use vstd::prelude::*;

verus! {

/// A file on Telegram's side.
#[derive(Debug, Clone)]
pub struct FileMeta {
    pub id: String,
    pub unique_id: String,
    pub size: u32,
}

/// A file that a message carries.
#[derive(Debug, Clone)]
pub struct MediaFile {
    pub file: FileMeta,
    pub file_name: Option<String>,
    /// MIME type without parameters.
    pub mime_type: Option<String>,
}

/// What a message carries, as far as files go.
#[derive(Debug, Clone)]
pub struct MediaMessage {
    pub document: Option<MediaFile>,
    pub voice: Option<MediaFile>,
    pub audio: Option<MediaFile>,
    pub video: Option<MediaFile>,
}

/// A file to be saved.
#[derive(Debug, Clone)]
pub struct AttachmentClass {
    kind: AttachmentKind,
    file: FileMeta,
    suggested_filename: String,
}

#[derive(Debug, Clone, Copy, PartialEq, Eq, Structural)]
pub enum AttachmentKind {
    Document,
    Voice,
    Audio,
    Video,
}

pub ghost struct AttachmentView {
    pub kind: AttachmentKind,
    pub file_id: Seq<char>,
    pub unique_id: Seq<char>,
    pub size: u32,
    pub suggested_filename: Seq<char>,
}

impl View for AttachmentClass {
    type V = AttachmentView;

    closed spec fn view(&self) -> AttachmentView {
        AttachmentView {
            kind: self.kind,
            file_id: self.file.id@,
            unique_id: self.file.unique_id@,
            size: self.file.size,
            suggested_filename: self.suggested_filename@,
        }
    }
}

impl AttachmentClass {
    pub fn file_meta(&self) -> (r: &FileMeta)
        ensures
            r.id@ == self@.file_id,
            r.unique_id@ == self@.unique_id,
            r.size == self@.size,
    {
        &self.file
    }

    pub fn suggested_filename(&self) -> (r: &str)
        ensures
            r@ == self@.suggested_filename,
    {
        self.suggested_filename.as_str()
    }

    pub fn kind_label(&self) -> (r: &'static str)
        ensures
            r@ == (match self@.kind {
                AttachmentKind::Document => "document"@,
                AttachmentKind::Voice => "voice"@,
                AttachmentKind::Audio => "audio"@,
                AttachmentKind::Video => "video"@,
            }),
    {
        match self.kind {
            AttachmentKind::Document => "document",
            AttachmentKind::Voice => "voice",
            AttachmentKind::Audio => "audio",
            AttachmentKind::Video => "video",
        }
    }
}

// ─── Classification ─────────────────────────────────────────────────────────

/// The file name extension for a MIME type.
pub open spec fn extension_of(mime: Option<Seq<char>>) -> Seq<char> {
    match mime {
        Some(m) => if m == "audio/ogg"@ {
            "ogg"@
        } else if m == "audio/mpeg"@ {
            "mp3"@
        } else if m == "audio/mp4"@ {
            "m4a"@
        } else if m == "audio/wav"@ || m == "audio/x-wav"@ {
            "wav"@
        } else if m == "video/mp4"@ {
            "mp4"@
        } else if m == "video/quicktime"@ {
            "mov"@
        } else if m == "video/webm"@ {
            "webm"@
        } else if m == "application/pdf"@ {
            "pdf"@
        } else if m == "text/plain"@ {
            "txt"@
        } else if m == "application/zip"@ {
            "zip"@
        } else if m == "image/jpeg"@ {
            "jpg"@
        } else if m == "image/png"@ {
            "png"@
        } else {
            "bin"@
        },
        None => "bin"@,
    }
}

fn extension(mime: Option<&str>) -> (r: &'static str)
    ensures
        r@ == extension_of(
            match mime {
                Some(m) => Some(m@),
                None => None,
            },
        ),
{
    match mime {
        Some(m) => if text_eq(m, "audio/ogg") {
            "ogg"
        } else if text_eq(m, "audio/mpeg") {
            "mp3"
        } else if text_eq(m, "audio/mp4") {
            "m4a"
        } else if text_eq(m, "audio/wav") || text_eq(m, "audio/x-wav") {
            "wav"
        } else if text_eq(m, "video/mp4") {
            "mp4"
        } else if text_eq(m, "video/quicktime") {
            "mov"
        } else if text_eq(m, "video/webm") {
            "webm"
        } else if text_eq(m, "application/pdf") {
            "pdf"
        } else if text_eq(m, "text/plain") {
            "txt"
        } else if text_eq(m, "application/zip") {
            "zip"
        } else if text_eq(m, "image/jpeg") {
            "jpg"
        } else if text_eq(m, "image/png") {
            "png"
        } else {
            "bin"
        },
        None => "bin",
    }
}

/// The file name for a file that has none: its id, with an extension that fits the
/// MIME type.
pub fn fallback_filename(unique_id: &str, mime: Option<&str>) -> (r: String)
    ensures
        r@ == unique_id@ + "."@ + extension_of(
            match mime {
                Some(m) => Some(m@),
                None => None,
            },
        ),
{
    concat3(unique_id, ".", extension(mime))
}

pub open spec fn mime_of(f: MediaFile) -> Option<Seq<char>> {
    match f.mime_type {
        Some(m) => Some(m@),
        None => None,
    }
}

pub open spec fn fallback_of(f: MediaFile) -> Seq<char> {
    f.file.unique_id@ + "."@ + extension_of(mime_of(f))
}

/// A file of the kind under the name.
pub open spec fn attachment_of(
    kind: AttachmentKind,
    f: MediaFile,
    name: Seq<char>,
) -> AttachmentView {
    AttachmentView {
        kind,
        file_id: f.file.id@,
        unique_id: f.file.unique_id@,
        size: f.file.size,
        suggested_filename: name,
    }
}

/// The name that the file has, or the fallback.
pub open spec fn name_of(f: MediaFile) -> Seq<char> {
    match f.file_name {
        Some(n) => n@,
        None => fallback_of(f),
    }
}

/// The file of a message: a document, else a voice note, else audio, else video. A
/// voice note has no name of its own.
pub open spec fn classified(msg: MediaMessage) -> Option<AttachmentView> {
    if msg.document is Some {
        Some(attachment_of(AttachmentKind::Document, msg.document->0, name_of(msg.document->0)))
    } else if msg.voice is Some {
        Some(attachment_of(AttachmentKind::Voice, msg.voice->0, fallback_of(msg.voice->0)))
    } else if msg.audio is Some {
        Some(attachment_of(AttachmentKind::Audio, msg.audio->0, name_of(msg.audio->0)))
    } else if msg.video is Some {
        Some(attachment_of(AttachmentKind::Video, msg.video->0, name_of(msg.video->0)))
    } else {
        None
    }
}

fn fallback_for(f: &MediaFile) -> (r: String)
    ensures
        r@ == fallback_of(*f),
{
    match &f.mime_type {
        Some(m) => fallback_filename(f.file.unique_id.as_str(), Some(m.as_str())),
        None => fallback_filename(f.file.unique_id.as_str(), None),
    }
}

fn attachment(kind: AttachmentKind, f: &MediaFile, name: String) -> (r: AttachmentClass)
    ensures
        r@ == attachment_of(kind, *f, name@),
{
    AttachmentClass {
        kind,
        file: FileMeta {
            id: f.file.id.clone(),
            unique_id: f.file.unique_id.clone(),
            size: f.file.size,
        },
        suggested_filename: name,
    }
}

fn name_for(f: &MediaFile) -> (r: String)
    ensures
        r@ == name_of(*f),
{
    match &f.file_name {
        Some(n) => n.clone(),
        None => fallback_for(f),
    }
}

/// The file that a message carries, if it carries one.
pub fn classify_attachment(msg: &MediaMessage) -> (r: Option<AttachmentClass>)
    ensures
        match r {
            Some(a) => classified(*msg) == Some(a@),
            None => classified(*msg) is None,
        },
{
    if let Some(doc) = &msg.document {
        return Some(attachment(AttachmentKind::Document, doc, name_for(doc)));
    }
    if let Some(voice) = &msg.voice {
        return Some(attachment(AttachmentKind::Voice, voice, fallback_for(voice)));
    }
    if let Some(audio) = &msg.audio {
        return Some(attachment(AttachmentKind::Audio, audio, name_for(audio)));
    }
    if let Some(video) = &msg.video {
        return Some(attachment(AttachmentKind::Video, video, name_for(video)));
    }
    None
}

// ─── File names ─────────────────────────────────────────────────────────────

/// Longest file name, in bytes.
pub const NAME_MAX: usize = 200;

/// Whether the character has no place in a file name.
pub open spec fn unsafe_char(c: char) -> bool {
    is_control(c) || c == '/' || c == '\\'
}

/// The name with `_` in place of every character that has no place in it.
pub open spec fn cleaned(name: Seq<char>) -> Seq<char> {
    name.map_values(|c: char| if unsafe_char(c) { '_' } else { c })
}

/// `s` without dots, then underscores, at its start; and the same at its end.
pub open spec fn stripped_once(s: Seq<char>) -> Seq<char> {
    trimmed_end(
        trimmed_end(
            trimmed_start(trimmed_start(s, CharClass::One('.')), CharClass::One('_')),
            CharClass::One('.'),
        ),
        CharClass::One('_'),
    )
}

/// `s` stripped until nothing is left to strip.
pub open spec fn stripped(s: Seq<char>) -> Seq<char>
    decreases s.len(),
    via stripped_decreases
{
    let next = stripped_once(s);
    if next.len() == s.len() {
        next
    } else {
        stripped(next)
    }
}

#[via_fn]
proof fn stripped_decreases(s: Seq<char>) {
    lemma_stripped_once_shorter(s);
}

proof fn lemma_trimmed_start_suffix(s: Seq<char>, class: CharClass)
    ensures
        trimmed_start(s, class).len() <= s.len(),
        trimmed_start(s, class) == s.skip(s.len() - trimmed_start(s, class).len()),
        trimmed_start(s, class).len() > 0 ==> !in_class(class, trimmed_start(s, class)[0]),
    decreases s.len(),
{
    if s.len() > 0 && in_class(class, s[0]) {
        lemma_trimmed_start_suffix(s.drop_first(), class);
        let t = trimmed_start(s, class);
        assert(t =~= s.skip(s.len() - t.len()));
    } else {
        assert(s.skip(0) =~= s);
    }
}

proof fn lemma_trimmed_end_prefix(s: Seq<char>, class: CharClass)
    ensures
        trimmed_end(s, class).len() <= s.len(),
        trimmed_end(s, class) == s.take(trimmed_end(s, class).len() as int),
        trimmed_end(s, class).len() > 0 ==> !in_class(class, trimmed_end(s, class).last()),
    decreases s.len(),
{
    if s.len() > 0 && in_class(class, s.last()) {
        lemma_trimmed_end_prefix(s.drop_last(), class);
        let t = trimmed_end(s, class);
        assert(t =~= s.take(t.len() as int));
    } else {
        assert(s.take(s.len() as int) =~= s);
    }
}

/// Whether `t` stands in `s` at `from`.
pub open spec fn stands_at(t: Seq<char>, s: Seq<char>, from: int) -> bool {
    0 <= from <= from + t.len() <= s.len() && t == s.subrange(from, from + t.len())
}

/// Whether `t` stands somewhere in `s`.
pub open spec fn is_part(t: Seq<char>, s: Seq<char>) -> bool {
    exists|from: int| stands_at(t, s, from)
}

proof fn lemma_stripped_once_shorter(s: Seq<char>)
    ensures
        stripped_once(s).len() <= s.len(),
        is_part(stripped_once(s), s),
        stripped_once(s).len() == s.len() ==> stripped_once(s) == s,
        stripped_once(s).len() == s.len() && s.len() > 0 ==> s[0] != '.' && s[0] != '_'
            && s.last() != '.' && s.last() != '_',
{
    let a = trimmed_start(s, CharClass::One('.'));
    let b = trimmed_start(a, CharClass::One('_'));
    let c = trimmed_end(b, CharClass::One('.'));
    let d = trimmed_end(c, CharClass::One('_'));
    lemma_trimmed_start_suffix(s, CharClass::One('.'));
    lemma_trimmed_start_suffix(a, CharClass::One('_'));
    lemma_trimmed_end_prefix(b, CharClass::One('.'));
    lemma_trimmed_end_prefix(c, CharClass::One('_'));
    let from = s.len() - b.len();
    assert(b =~= s.skip(from));
    assert(d =~= s.subrange(from, from + d.len()));
    assert(stands_at(d, s, from));
    if d.len() == s.len() {
        assert(d =~= s);
        assert(a =~= s && b =~= s && c =~= s);
    }
}

/// What is left of a name before it is cut.
pub open spec fn body_of(name: Seq<char>) -> Seq<char> {
    stripped(trimmed(cleaned(name), CharClass::White))
}

/// The place of the last dot of the name, if it has one.
pub open spec fn last_dot(s: Seq<char>) -> Option<int>
    decreases s.len(),
{
    if s.len() == 0 {
        None
    } else if s.last() == '.' {
        Some(s.len() - 1)
    } else {
        last_dot(s.drop_last())
    }
}

/// The place of the extension of a long name, where it leaves room for the name in front
/// of it.
pub open spec fn kept_extension(s: Seq<char>) -> Option<int> {
    match last_dot(s) {
        Some(dot) => if byte_len(s.skip(dot)) < NAME_MAX {
            Some(dot)
        } else {
            None
        },
        None => None,
    }
}

/// How many bytes are left for the name in front of the extension.
pub open spec fn stem_room(ext: Seq<char>) -> nat {
    (NAME_MAX - byte_len(ext)) as nat
}

/// A name of more than 200 bytes, cut to 200. The extension stays, where it leaves room
/// for the name in front of it.
pub open spec fn shortened(s: Seq<char>) -> Seq<char> {
    match kept_extension(s) {
        Some(dot) => prefix_within(s.take(dot), stem_room(s.skip(dot))) + s.skip(dot),
        None => prefix_within(s, NAME_MAX as nat),
    }
}

/// The name under which a file is saved.
pub open spec fn sanitized(name: Seq<char>) -> Seq<char> {
    let s = body_of(name);
    if s.len() == 0 {
        "attachment.bin"@
    } else if byte_len(s) > NAME_MAX {
        shortened(s)
    } else {
        s
    }
}

/// Whether the place at which a long name is cut lies between two characters. Where the
/// extension leaves no room, the name is cut in front of the character at that place.
pub open spec fn sanitizable(name: Seq<char>) -> bool {
    let s = body_of(name);
    byte_len(s) > NAME_MAX ==> match last_dot(s) {
        Some(dot) => byte_len(s.skip(dot)) < NAME_MAX ==> {
            let room = stem_room(s.skip(dot));
            byte_len(s.take(dot)) <= room || byte_len(prefix_within(s.take(dot), room)) == room
        },
        None => byte_len(prefix_within(s, NAME_MAX as nat)) == NAME_MAX,
    }
}

fn clean(name: &str) -> (r: Vec<char>)
    ensures
        r@ == cleaned(name@),
{
    let v = to_chars(name);
    let mut out: Vec<char> = Vec::new();
    let mut i: usize = 0;
    while i < v.len()
        invariant
            i <= v@.len(),
            out@.len() == i,
            forall|k: int| 0 <= k < i ==> #[trigger] out@[k] == cleaned(v@)[k],
        decreases v@.len() - i,
    {
        let c = v[i];
        if control(c) || c == '/' || c == '\\' {
            out.push('_');
        } else {
            out.push(c);
        }
        i += 1;
    }
    assert(out@ =~= cleaned(name@));
    out
}

/// What is left of a name before it is cut.
fn body(name: &str) -> (r: Vec<char>)
    ensures
        r@ == body_of(name@),
{
    let v = clean(name);
    let mut lo: usize = skip_class(&v, 0, v.len(), CharClass::White);
    let mut hi: usize = skip_class_back(&v, lo, v.len(), CharClass::White);
    assert(v@.subrange(0, v@.len() as int) =~= v@);
    let ghost start = v@.subrange(lo as int, hi as int);
    let mut done = false;
    while !done
        invariant
            lo <= hi <= v@.len(),
            !done ==> stripped(v@.subrange(lo as int, hi as int)) == stripped(start),
            done ==> v@.subrange(lo as int, hi as int) == stripped(start),
        decreases hi - lo + (if done { 0int } else { 1 }),
    {
        let ghost now = v@.subrange(lo as int, hi as int);
        let a: usize = skip_class(&v, lo, hi, CharClass::One('.'));
        let b: usize = skip_class(&v, a, hi, CharClass::One('_'));
        let c: usize = skip_class_back(&v, b, hi, CharClass::One('.'));
        let d: usize = skip_class_back(&v, b, c, CharClass::One('_'));
        assert(v@.subrange(b as int, d as int) == stripped_once(now));
        if d - b == hi - lo {
            done = true;
        }
        lo = b;
        hi = d;
    }
    let mut out: Vec<char> = Vec::new();
    let mut i: usize = lo;
    while i < hi
        invariant
            lo <= i <= hi <= v@.len(),
            out@ == v@.subrange(lo as int, i as int),
        decreases hi - i,
    {
        out.push(v[i]);
        i += 1;
    }
    out
}

/// The place of the last dot, or the length.
fn find_last_dot(v: &Vec<char>) -> (r: usize)
    ensures
        match last_dot(v@) {
            Some(dot) => r == dot && r < v@.len(),
            None => r == v@.len(),
        },
{
    let mut i: usize = v.len();
    assert(v@.take(i as int) =~= v@);
    while i > 0
        invariant
            i <= v@.len(),
            last_dot(v@) == last_dot(v@.take(i as int)),
        decreases i,
    {
        assert(v@.take(i as int).drop_last() =~= v@.take(i - 1));
        assert(v@.take(i as int).last() == v@[i - 1]);
        if v[i - 1] == '.' {
            return i - 1;
        }
        i -= 1;
    }
    v.len()
}

/// The name under which a file is saved: without path separators and control
/// characters, without dots and underscores at its ends, and not too long.
pub fn sanitize_filename(name: &str) -> (r: String)
    requires
        sanitizable(name@),
    ensures
        r@ == sanitized(name@),
        byte_len(r@) <= NAME_MAX,
        r@.len() > 0 && r@[0] != '.' && r@[0] != '_',
{
    proof {
        law_sanitized_length(name@);
        law_sanitized_not_hidden(name@);
    }
    let v = body(name);
    if v.len() == 0 {
        return "attachment.bin".to_owned();
    }
    let whole = from_chars(&v, 0, v.len());
    assert(whole@ =~= v@);
    if text_len(whole.as_str()) <= NAME_MAX {
        return whole;
    }
    let dot: usize = find_last_dot(&v);
    if dot < v.len() {
        let stem = from_chars(&v, 0, dot);
        let ext = from_chars(&v, dot, v.len());
        proof {
            assert(stem@ =~= v@.take(dot as int));
            assert(ext@ =~= v@.skip(dot as int));
        }
        let ext_len: usize = text_len(ext.as_str());
        if ext_len < NAME_MAX {
            let stem_text = head_within(stem.as_str(), NAME_MAX - ext_len);
            return concat2(stem_text.as_str(), ext.as_str());
        }
    }
    head_within(whole.as_str(), NAME_MAX)
}

/// Whether `sanitize_filename` can cut the name.
pub fn can_sanitize(name: &str) -> (r: bool)
    ensures
        r == sanitizable(name@),
{
    let v = body(name);
    let whole = from_chars(&v, 0, v.len());
    assert(whole@ =~= v@);
    if text_len(whole.as_str()) <= NAME_MAX {
        return true;
    }
    let dot: usize = find_last_dot(&v);
    if dot < v.len() {
        let stem = from_chars(&v, 0, dot);
        let ext = from_chars(&v, dot, v.len());
        proof {
            assert(stem@ =~= v@.take(dot as int));
            assert(ext@ =~= v@.skip(dot as int));
        }
        let ext_len: usize = text_len(ext.as_str());
        if ext_len >= NAME_MAX {
            return true;
        }
        let room: usize = NAME_MAX - ext_len;
        text_len(stem.as_str()) <= room || text_len(head_within(stem.as_str(), room).as_str())
            == room
    } else {
        text_len(head_within(whole.as_str(), NAME_MAX).as_str()) == NAME_MAX
    }
}

// ─── Saving ─────────────────────────────────────────────────────────────────

/// Where a file is saved.
pub open spec fn attachment_path_of(
    work_dir: Seq<char>,
    chat_id: i64,
    message_id: i32,
    filename: Seq<char>,
) -> Seq<char> {
    path_of(
        work_dir,
        seq![
            ".deskd"@,
            "attachments"@,
            signed_decimal(chat_id as int),
            signed_decimal(message_id as int),
            filename,
        ],
    )
}

/// The path of an attachment: `{work_dir}/.deskd/attachments/<chat>/<message>/<file>`.
pub fn attachment_path(work_dir: &str, chat_id: i64, message_id: i32, filename: &str) -> (r: String)
    ensures
        r@ == attachment_path_of(work_dir@, chat_id, message_id, filename@),
{
    let a = path_join(work_dir, ".deskd");
    let b = path_join(a.as_str(), "attachments");
    let c = path_join(b.as_str(), format_i64(chat_id).as_str());
    let d = path_join(c.as_str(), format_i64(message_id as i64).as_str());
    let e = path_join(d.as_str(), filename);
    proof {
        let parts = seq![
            ".deskd"@,
            "attachments"@,
            signed_decimal(chat_id as int),
            signed_decimal(message_id as int),
            filename@,
        ];
        reveal_with_fuel(path_of, 6);
        assert(parts.drop_last().drop_last().drop_last().drop_last().drop_last().len() == 0);
    }
    e
}

/// How an attempt to save a file ended.
#[derive(Debug, Clone, Copy, PartialEq, Eq, Structural)]
pub enum DownloadOutcome {
    Saved,
    OverCap { size: u64, limit: u64 },
}

/// What a file's size means for saving it: nothing, or that it is over the limit.
/// Asked of the size that the message declares, and again of the size that the
/// server reports.
pub fn over_cap(size: u64, max_bytes: u64) -> (r: Option<DownloadOutcome>)
    ensures
        r == if size > max_bytes {
            Some(DownloadOutcome::OverCap { size, limit: max_bytes })
        } else {
            None::<DownloadOutcome>
        },
{
    if size > max_bytes {
        Some(DownloadOutcome::OverCap { size, limit: max_bytes })
    } else {
        None
    }
}

// ─── Laws ───────────────────────────────────────────────────────────────────

proof fn lemma_part_transitive(a: Seq<char>, b: Seq<char>, c: Seq<char>)
    requires
        is_part(a, b),
        is_part(b, c),
    ensures
        is_part(a, c),
{
    let i = choose|i: int| stands_at(a, b, i);
    let j = choose|j: int| stands_at(b, c, j);
    assert(a =~= c.subrange(i + j, i + j + a.len()));
    assert(stands_at(a, c, i + j));
}

proof fn lemma_stripped(s: Seq<char>)
    ensures
        is_part(stripped(s), s),
        stripped(s).len() > 0 ==> stripped(s)[0] != '.' && stripped(s)[0] != '_'
            && stripped(s).last() != '.' && stripped(s).last() != '_',
    decreases s.len(),
{
    lemma_stripped_once_shorter(s);
    let next = stripped_once(s);
    if next.len() != s.len() {
        lemma_stripped(next);
        lemma_part_transitive(stripped(next), next, s);
    }
}

proof fn lemma_body_is_part(name: Seq<char>)
    ensures
        is_part(body_of(name), cleaned(name)),
{
    let all = cleaned(name);
    let a = trimmed_start(all, CharClass::White);
    let b = trimmed_end(a, CharClass::White);
    lemma_trimmed_start_suffix(all, CharClass::White);
    lemma_trimmed_end_prefix(a, CharClass::White);
    assert(b =~= all.subrange(all.len() - a.len(), all.len() - a.len() + b.len()));
    assert(stands_at(b, all, all.len() - a.len()));
    lemma_stripped(b);
    lemma_part_transitive(stripped(b), b, all);
}

proof fn lemma_body_is_safe(name: Seq<char>)
    ensures
        forall|i: int| 0 <= i < body_of(name).len() ==> !unsafe_char(#[trigger] body_of(name)[i]),
{
    lemma_body_is_part(name);
    let from = choose|from: int| stands_at(body_of(name), cleaned(name), from);
    assert forall|i: int| 0 <= i < body_of(name).len() implies !unsafe_char(
        #[trigger] body_of(name)[i],
    ) by {
        assert(body_of(name)[i] == cleaned(name)[from + i]);
        assert(!unsafe_char('_'));
    }
}

proof fn lemma_last_dot(s: Seq<char>)
    ensures
        last_dot(s) matches Some(dot) ==> 0 <= dot < s.len() && s[dot] == '.',
    decreases s.len(),
{
    if s.len() > 0 && s.last() != '.' {
        lemma_last_dot(s.drop_last());
    }
}

/// A saved file's name holds no path separator and no control character.
pub proof fn law_sanitized_is_safe(name: Seq<char>, i: int)
    requires
        0 <= i < sanitized(name).len(),
    ensures
        !unsafe_char(sanitized(name)[i]),
{
    reveal_strlit("attachment.bin");
    lemma_body_is_safe(name);
    let s = body_of(name);
    if s.len() > 0 && byte_len(s) > NAME_MAX {
        lemma_last_dot(s);
        match kept_extension(s) {
            Some(dot) => {
                let room = stem_room(s.skip(dot));
                lemma_fitting(s.take(dot), room);
                let head = prefix_within(s.take(dot), room);
                if i < head.len() {
                    assert(sanitized(name)[i] == s[i]);
                } else {
                    assert(sanitized(name)[i] == s[dot + (i - head.len())]);
                }
            },
            None => {
                lemma_fitting(s, NAME_MAX as nat);
            },
        }
    }
}

proof fn lemma_cut_not_empty(s: Seq<char>)
    requires
        s.len() > 0,
    ensures
        prefix_within(s, NAME_MAX as nat).len() > 0,
        prefix_within(s, NAME_MAX as nat)[0] == s[0],
{
    lemma_fitting(s, NAME_MAX as nat);
    if fitting(s, NAME_MAX as nat) == 0 {
        lemma_byte_len_first(s);
    }
}

/// A saved file has a name.
pub proof fn law_sanitized_not_empty(name: Seq<char>)
    ensures
        sanitized(name).len() > 0,
{
    reveal_strlit("attachment.bin");
    let s = body_of(name);
    if s.len() > 0 && byte_len(s) > NAME_MAX {
        lemma_last_dot(s);
        if kept_extension(s) is None {
            lemma_cut_not_empty(s);
        }
    }
}

/// No saved file is hidden: its name starts with neither a dot nor an underscore.
pub proof fn law_sanitized_not_hidden(name: Seq<char>)
    requires
        sanitizable(name),
    ensures
        sanitized(name).len() > 0,
        sanitized(name)[0] != '.',
        sanitized(name)[0] != '_',
{
    reveal_strlit("attachment.bin");
    let s = body_of(name);
    lemma_stripped(trimmed(cleaned(name), CharClass::White));
    law_sanitized_not_empty(name);
    if s.len() > 0 && byte_len(s) > NAME_MAX {
        lemma_last_dot(s);
        match kept_extension(s) {
            Some(dot) => {
                let stem = s.take(dot);
                let room = stem_room(s.skip(dot));
                lemma_fitting(stem, room);
                assert(stem[0] == s[0]);
                if fitting(stem, room) == 0 {
                    assert(stem.take(0) =~= Seq::<char>::empty());
                    lemma_byte_len_first(stem);
                }
                assert(sanitized(name)[0] == s[0]);
            },
            None => {
                lemma_cut_not_empty(s);
            },
        }
    }
}

/// A saved file's name takes at most 200 bytes.
pub proof fn law_sanitized_length(name: Seq<char>)
    ensures
        byte_len(sanitized(name)) <= NAME_MAX,
{
    let s = body_of(name);
    if s.len() == 0 {
        reveal_strlit("attachment.bin");
        lemma_ascii_len("attachment.bin"@);
    } else if byte_len(s) > NAME_MAX {
        match kept_extension(s) {
            Some(dot) => {
                let room = stem_room(s.skip(dot));
                lemma_fitting(s.take(dot), room);
                lemma_byte_len_concat(prefix_within(s.take(dot), room), s.skip(dot));
            },
            None => {
                lemma_fitting(s, NAME_MAX as nat);
            },
        }
    }
}

/// A name that is already safe, short and without dots or underscores at its ends is
/// kept as it is.
pub proof fn law_sanitized_keeps_plain_names(name: Seq<char>)
    requires
        name.len() > 0,
        byte_len(name) <= NAME_MAX,
        forall|i: int| 0 <= i < name.len() ==> !unsafe_char(#[trigger] name[i]),
        !is_white(name[0]) && !is_white(name.last()),
        name[0] != '.' && name[0] != '_' && name.last() != '.' && name.last() != '_',
    ensures
        sanitized(name) == name,
{
    assert(cleaned(name) =~= name);
    assert(trimmed(name, CharClass::White) == name);
    assert(stripped_once(name) == name);
}

/// A character that has no place in a file name becomes an underscore, any other one stays
/// where it is, as long as the name is short and its ends are plain.
pub proof fn law_sanitized_character_by_character(name: Seq<char>, i: int)
    requires
        0 <= i < name.len(),
        byte_len(cleaned(name)) <= NAME_MAX,
        ({
            let a = name[0];
            let z = name.last();
            &&& !unsafe_char(a) && !is_white(a) && a != '.' && a != '_'
            &&& !unsafe_char(z) && !is_white(z) && z != '.' && z != '_'
        }),
    ensures
        sanitized(name).len() == name.len(),
        name[i] == '/' || name[i] == '\\' || name[i] == '\n' || name[i] == '\0'
            ==> sanitized(name)[i] == '_',
        !unsafe_char(name[i]) ==> sanitized(name)[i] == name[i],
{
    let s = cleaned(name);
    assert(s[0] == name[0] && s.last() == name.last());
    assert(trimmed(s, CharClass::White) == s);
    assert(stripped_once(s) == s);
}

/// A long name keeps its extension, from its last dot on, and the beginning of what stands
/// in front of it, as much as fits in 200 bytes.
pub proof fn law_long_name_keeps_its_extension(stem: Seq<char>, ext: Seq<char>)
    requires
        stem.len() > 0,
        ext.len() > 0,
        byte_len(stem + seq!['.'] + ext) > 200,
        byte_len(seq!['.'] + ext) < 200,
        !ext.contains('.'),
        forall|i: int|
            0 <= i < (stem + seq!['.'] + ext).len() ==> !unsafe_char(
                #[trigger] (stem + seq!['.'] + ext)[i],
            ),
        !is_white(stem[0]) && stem[0] != '.' && stem[0] != '_',
        !is_white(ext.last()) && ext.last() != '_',
    ensures
        sanitized(stem + seq!['.'] + ext) == prefix_within(
            stem,
            (200 - byte_len(seq!['.'] + ext)) as nat,
        ) + seq!['.'] + ext,
{
    let name = stem + seq!['.'] + ext;
    assert(cleaned(name) =~= name);
    assert(ext.last() != '.') by {
        assert(ext.contains(ext.last()));
    }
    assert(name.last() == ext.last());
    assert(name[0] == stem[0]);
    assert(trimmed(name, CharClass::White) == name);
    assert(stripped_once(name) == name);
    assert(body_of(name) == name);
    lemma_last_dot_at(stem, ext);
    let dot = stem.len() as int;
    assert(name.skip(dot) =~= seq!['.'] + ext);
    assert(name.take(dot) =~= stem);
    assert(sanitized(name) =~= prefix_within(stem, (200 - byte_len(seq!['.'] + ext)) as nat)
        + seq!['.'] + ext);
}

proof fn lemma_last_dot_at(stem: Seq<char>, ext: Seq<char>)
    requires
        !ext.contains('.'),
    ensures
        last_dot(stem + seq!['.'] + ext) == Some(stem.len() as int),
    decreases ext.len(),
{
    let s = stem + seq!['.'] + ext;
    if ext.len() > 0 {
        assert(s.last() == ext.last());
        assert(ext.contains(ext.last()));
        let front = ext.drop_last();
        assert(s.drop_last() =~= stem + seq!['.'] + front);
        assert(!front.contains('.')) by {
            if front.contains('.') {
                let i = choose|i: int| 0 <= i < front.len() && front[i] == '.';
                assert(ext[i] == '.');
            }
        }
        lemma_last_dot_at(stem, front);
    } else {
        assert(s.last() == '.');
    }
}

/// The file of a message is its document, or else its voice note, or else its audio, or
/// else its video. It has the id and the size of that file, and its name, but for a voice
/// note.
pub proof fn law_attachment_is_the_first_kind(msg: MediaMessage)
    ensures
        msg.document matches Some(f) ==> (classified(msg) matches Some(a) && a.kind
            == AttachmentKind::Document && a.file_id == f.file.id@ && a.size == f.file.size && (
        f.file_name matches Some(n) ==> a.suggested_filename == n@)),
        msg.document is None ==> (msg.voice matches Some(f) ==> (classified(msg) matches Some(a)
            && a.kind == AttachmentKind::Voice && a.file_id == f.file.id@ && a.size
            == f.file.size && f.file.unique_id@.is_prefix_of(a.suggested_filename))),
        msg.document is None && msg.voice is None ==> (msg.audio matches Some(f) ==> (classified(
            msg,
        ) matches Some(a) && a.kind == AttachmentKind::Audio && a.file_id == f.file.id@ && a.size
            == f.file.size && (f.file_name matches Some(n) ==> a.suggested_filename == n@))),
        msg.document is None && msg.voice is None && msg.audio is None ==> (
        msg.video matches Some(f) ==> (classified(msg) matches Some(a) && a.kind
            == AttachmentKind::Video && a.file_id == f.file.id@ && a.size == f.file.size && (
        f.file_name matches Some(n) ==> a.suggested_filename == n@))),
        classified(msg) is None <==> msg.document is None && msg.voice is None && msg.audio is None
            && msg.video is None,
{
    if msg.document is None && msg.voice is Some {
        let f = msg.voice->0;
        let name = fallback_of(f);
        assert(name.subrange(0, f.file.unique_id@.len() as int) =~= f.file.unique_id@);
    }
}

/// A file without a name is named by its id, with the extension of its type.
pub proof fn law_nameless_file_is_named_by_its_id(f: MediaFile)
    requires
        f.file_name is None,
    ensures
        name_of(f) == f.file.unique_id@ + "."@ + extension_of(
            match f.mime_type {
                Some(m) => Some(m@),
                None => None,
            },
        ),
        f.mime_type is None ==> extension_of(None) == "bin"@,
        forall|m: Seq<char>| #[trigger]
            extension_of(Some(m)) == "pdf"@ ==> m == "application/pdf"@,
{
    reveal_strlit("ogg");
    reveal_strlit("mp3");
    reveal_strlit("m4a");
    reveal_strlit("wav");
    reveal_strlit("mp4");
    reveal_strlit("mov");
    reveal_strlit("webm");
    reveal_strlit("pdf");
    reveal_strlit("txt");
    reveal_strlit("zip");
    reveal_strlit("jpg");
    reveal_strlit("png");
    reveal_strlit("bin");
    assert("pdf"@[0] == 'p' && "pdf"@[1] == 'd');
    assert("png"@[1] == 'n');
    assert("ogg"@[0] == 'o' && "mp3"@[0] == 'm' && "m4a"@[0] == 'm' && "wav"@[0] == 'w' && "mp4"@[0]
        == 'm' && "mov"@[0] == 'm' && "webm"@[0] == 'w' && "txt"@[0] == 't' && "zip"@[0] == 'z'
        && "jpg"@[0] == 'j' && "bin"@[0] == 'b');
}

/// An attachment is saved below the work directory, under its chat and its message.
pub proof fn law_attachment_path_layout(
    work_dir: Seq<char>,
    chat_id: i64,
    message_id: i32,
    filename: Seq<char>,
)
    requires
        work_dir.len() > 0 && work_dir.last() != '/',
        filename.len() > 0 && filename[0] != '/',
    ensures
        attachment_path_of(work_dir, chat_id, message_id, filename) == work_dir
            + "/.deskd/attachments/"@ + signed_decimal(chat_id as int) + "/"@ + signed_decimal(
            message_id as int,
        ) + "/"@ + filename,
{
    reveal_strlit(".deskd");
    reveal_strlit("attachments");
    reveal_strlit("/");
    reveal_strlit("/.deskd/attachments/");
    let chat = signed_decimal(chat_id as int);
    let message = signed_decimal(message_id as int);
    lemma_number_is_plain(chat_id as int);
    lemma_number_is_plain(message_id as int);
    let parts = seq![".deskd"@, "attachments"@, chat, message, filename];
    reveal_with_fuel(path_of, 6);
    let a = path_joined(work_dir, ".deskd"@);
    let b = path_joined(a, "attachments"@);
    let c = path_joined(b, chat);
    let d = path_joined(c, message);
    assert(parts.drop_last() =~= seq![".deskd"@, "attachments"@, chat, message]);
    assert(parts.drop_last().drop_last() =~= seq![".deskd"@, "attachments"@, chat]);
    assert(parts.drop_last().drop_last().drop_last() =~= seq![".deskd"@, "attachments"@]);
    assert(parts.drop_last().drop_last().drop_last().drop_last() =~= seq![".deskd"@]);
    assert(parts.drop_last().drop_last().drop_last().drop_last().drop_last() =~= Seq::<
        Seq<char>,
    >::empty());
    assert(a.last() == 'd');
    assert(b.last() == 's');
    assert(c.last() == chat.last());
    assert(d.last() == message.last());
    assert(path_of(work_dir, parts) == path_joined(d, filename));
    assert(path_joined(d, filename) =~= work_dir + "/.deskd/attachments/"@ + chat + "/"@ + message
        + "/"@ + filename);
}

proof fn lemma_number_is_plain(n: int)
    ensures
        signed_decimal(n).len() > 0,
        signed_decimal(n)[0] != '/',
        signed_decimal(n).last() != '/',
{
    let size: nat = if n < 0 {
        (-n) as nat
    } else {
        n as nat
    };
    lemma_decimal_value(size);
    let digits = decimal(size);
    assert(is_digit(digits[0]));
    assert(is_digit(digits[digits.len() - 1]));
    assert(signed_decimal(n).last() == digits.last());
}

/// A file is refused where it is larger than the limit, and only there; the refusal names
/// both.
pub proof fn law_larger_files_are_refused(size: u64, max_bytes: u64, r: Option<DownloadOutcome>)
    requires
        call_ensures(over_cap, (size, max_bytes), r),
    ensures
        size <= max_bytes ==> r is None,
        size > max_bytes ==> r == Some(DownloadOutcome::OverCap { size, limit: max_bytes }),
{
}

} // verus!
