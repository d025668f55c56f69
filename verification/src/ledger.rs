//! The records of the Lisa Ledger, the append-only audit log: every model
//! call, context grant and tool execution is written there before it
//! happens. Storage is the ledger file's business; this module holds the
//! record shapes and the bounded, single-line preview shown in the UI.

use vstd::prelude::*;

verus! {

/// One stored, auditable event. `kind` examples: `inference.generate`,
/// `inference.complete`, `context.grant`, `tool.call`.
#[derive(Debug, Clone)]
pub struct Entry {
    pub id: i64,
    /// Unix milliseconds.
    pub ts: i64,
    pub kind: String,
    /// Requesting app identity ("host" until per-app identity exists).
    pub app_id: String,
    pub model: String,
    /// Hash of the full prompt or input.
    pub input_hash: String,
    /// Human-readable preview (bounded).
    pub preview: String,
    /// "ok" | "error" | "preempted" | "started" | ...
    pub status: String,
    pub detail: String,
    /// For completion entries: the id of the corresponding start entry.
    pub ref_id: Option<i64>,
    pub output_tokens: i64,
    pub duration_ms: i64,
}

/// What callers provide when appending (ids and timestamps are the
/// ledger's).
#[derive(Debug, Clone)]
pub struct Event {
    pub kind: String,
    pub app_id: String,
    pub model: String,
    pub input_hash: String,
    pub preview: String,
    pub status: String,
    pub detail: String,
    pub ref_id: Option<i64>,
    pub output_tokens: i64,
    pub duration_ms: i64,
}

impl Default for Event {
    fn default() -> (e: Event)
        ensures
            e.kind@ == Seq::<char>::empty(),
            e.app_id@ == Seq::<char>::empty(),
            e.model@ == Seq::<char>::empty(),
            e.input_hash@ == Seq::<char>::empty(),
            e.preview@ == Seq::<char>::empty(),
            e.status@ == Seq::<char>::empty(),
            e.detail@ == Seq::<char>::empty(),
            e.ref_id is None,
            e.output_tokens == 0,
            e.duration_ms == 0,
    {
        Event {
            kind: String::new(),
            app_id: String::new(),
            model: String::new(),
            input_hash: String::new(),
            preview: String::new(),
            status: String::new(),
            detail: String::new(),
            ref_id: None,
            output_tokens: 0,
            duration_ms: 0,
        }
    }
}

/// The longest preview, in characters.
pub const PREVIEW_CHARS: usize = 160;

/// Line breaks become spaces in a preview.
pub open spec fn one_line_char(c: char) -> char {
    if c == '\n' || c == '\r' {
        ' '
    } else {
        c
    }
}

/// The preview of `text`: its first 160 characters, with every `\n` and
/// `\r` replaced by a space.
pub open spec fn spec_preview(text: Seq<char>) -> Seq<char> {
    let n = if text.len() < 160 {
        text.len() as int
    } else {
        160
    };
    Seq::new(n as nat, |i: int| one_line_char(text[i]))
}

/// Bounded, single-line preview for UI display.
pub fn preview_of(text: &str) -> (p: String)
    ensures
        p@ == spec_preview(text@),
        p@.len() <= 160,
        forall|i: int| 0 <= i < p@.len() ==> p@[i] != '\n' && p@[i] != '\r',
{
    let n = text.unicode_len();
    let limit: usize = if n < PREVIEW_CHARS {
        n
    } else {
        PREVIEW_CHARS
    };
    let mut out = String::new();
    let mut i: usize = 0;
    while i < limit
        invariant
            n == text@.len(),
            limit <= n,
            limit == (if n < 160 { n } else { 160 }),
            i <= limit,
            out@ =~= spec_preview(text@).take(i as int),
        decreases limit - i,
    {
        let c = text.get_char(i);
        let d = if c == '\n' || c == '\r' {
            ' '
        } else {
            c
        };
        crate::text::push_char(&mut out, d);
        i = i + 1;
    }
    assert(spec_preview(text@).take(limit as int) =~= spec_preview(text@));
    out
}

/// The lower-case hexadecimal BLAKE3 digest of `data`, as
/// `blake3::hash(data).to_hex()` spells it.
pub uninterp spec fn spec_blake3_hex(data: Seq<u8>) -> Seq<char>;

/// `blake3::hash` rendered by `Hash::to_hex`: 64 lower-case hex digits.
#[verifier::external_body]
fn blake3_hex(data: &[u8]) -> (h: String)
    ensures
        h@ == spec_blake3_hex(data@),
        h@.len() == 64,
{
    blake3::hash(data).to_hex().to_string()
}

/// The hash a ledger event records for its input: the BLAKE3 digest of
/// the input text's UTF-8 bytes.
pub open spec fn spec_input_hash(text: Seq<char>) -> Seq<char> {
    spec_blake3_hex(vstd::utf8::encode_utf8(text))
}

pub fn input_hash(text: &str) -> (h: String)
    ensures
        h@ == spec_input_hash(text@),
        h@.len() == 64,
{
    blake3_hex(text.as_bytes())
}

/// The preview law: the preview is the text's first `min(len, 160)`
/// characters, in order, each line break (`\n`, `\r`) turned into a space
/// and every other character kept.
pub proof fn lemma_preview_is_prefix(text: Seq<char>)
    ensures
        spec_preview(text).len() == if text.len() < 160 {
            text.len()
        } else {
            160
        },
        forall|i: int|
            0 <= i < spec_preview(text).len() ==> #[trigger] spec_preview(text)[i] == if text[i] == '\n'
                || text[i] == '\r' {
                ' '
            } else {
                text[i]
            },
{
}

} // verus!
