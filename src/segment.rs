//! Inspection of one segment: the `STARTTLS` downgrade, the capture of
//! `AUTH PLAIN` credentials, and the log notes that go with them.

use vstd::prelude::*;
use vstd::utf8::{decode_utf8, valid_utf8};
use crate::bytes::{is_ascii_bytes, all_ascii, push_range, contains, is_first_occurrence, occurs_at};
use crate::outside::{base64_decode_of, find_bytes, base64_decode, string_from_utf8};
use crate::traffic::{traffic_text, traffic_line};

verus! {

/// `250 STARTTLS\r\n`: the server's offer to upgrade to TLS.
pub open spec fn starttls_reply() -> Seq<u8> {
    seq![50u8, 53u8, 48u8, 32u8, 83u8, 84u8, 65u8, 82u8, 84u8, 84u8, 76u8, 83u8, 13u8, 10u8]
}

/// `AUTH PLAIN`: the start of a plaintext login command.
pub open spec fn auth_plain() -> Seq<u8> {
    seq![65u8, 85u8, 84u8, 72u8, 32u8, 80u8, 76u8, 65u8, 73u8, 78u8]
}

/// `250 ` followed by `AUTH PLAIN`, without the line end.
pub open spec fn auth_plain_reply_head() -> Seq<u8> {
    seq![50u8, 53u8, 48u8, 32u8] + auth_plain()
}

/// `250 AUTH PLAIN\r\n`: what the server's `STARTTLS` offer becomes.
pub open spec fn auth_plain_reply() -> Seq<u8> {
    auth_plain_reply_head() + seq![13u8, 10u8]
}

pub open spec fn has_starttls(s: Seq<u8>) -> bool {
    exists|i: int| is_first_occurrence(s, starttls_reply(), i)
}

/// Where the first `250 STARTTLS\r\n` of `s` starts.
pub open spec fn starttls_at(s: Seq<u8>) -> int
    recommends
        has_starttls(s),
{
    choose|i: int| is_first_occurrence(s, starttls_reply(), i)
}

/// `s` with its first `250 STARTTLS` replaced by `250 AUTH PLAIN`, keeping
/// the line end that followed it; `s` itself where it holds none.
pub open spec fn downgraded(s: Seq<u8>) -> Seq<u8> {
    if has_starttls(s) {
        let i = starttls_at(s);
        s.subrange(0, i) + auth_plain_reply_head() + s.subrange(i + 12, s.len() as int)
    } else {
        s
    }
}

/// The segment starts with `AUTH PLAIN` and has more than three bytes after it.
pub open spec fn is_auth_plain(s: Seq<u8>) -> bool {
    s.len() > 13 && s.subrange(0, 10) == auth_plain()
}

/// The credential blob of an `AUTH PLAIN` segment: what lies between the
/// prefix with its separator and the two bytes of the line end.
pub open spec fn credential_blob(s: Seq<u8>) -> Seq<u8> {
    s.subrange(11, s.len() - 2)
}

/// The bytes that a segment is forwarded as: only ASCII segments are inspected.
pub open spec fn forwarded(s: Seq<u8>) -> Seq<u8> {
    if is_ascii_bytes(s) {
        downgraded(s)
    } else {
        s
    }
}

/// A log note in the abstract.
pub ghost enum NoteView {
    Traffic(Seq<u8>),
    StartTlsStripped,
    EncodedCredentials(Seq<u8>),
    Credentials(Seq<char>),
    NotUtf8,
    NotBase64,
}

/// What a segment gives to the log.
pub enum Note {
    /// A segment as it goes by (information).
    Traffic(Vec<u8>),
    /// The server's `STARTTLS` offer was replaced (debug).
    StartTlsStripped,
    /// The base64 text of captured credentials (debug).
    EncodedCredentials(Vec<u8>),
    /// Captured credentials as text (information).
    Credentials(String),
    /// The credentials decoded from base64 are not UTF-8 (error).
    NotUtf8,
    /// The credential blob is not base64 (error).
    NotBase64,
}

impl View for Note {
    type V = NoteView;

    open spec fn view(&self) -> NoteView {
        match self {
            Note::Traffic(v) => NoteView::Traffic(v@),
            Note::StartTlsStripped => NoteView::StartTlsStripped,
            Note::EncodedCredentials(v) => NoteView::EncodedCredentials(v@),
            Note::Credentials(t) => NoteView::Credentials(t@),
            Note::NotUtf8 => NoteView::NotUtf8,
            Note::NotBase64 => NoteView::NotBase64,
        }
    }
}

pub open spec fn notes_view(notes: Seq<Note>) -> Seq<NoteView> {
    notes.map_values(|n: Note| n@)
}

/// The note for credentials whose base64 decoding gave `decoded`.
pub open spec fn credential_note_of(decoded: Option<Seq<u8>>) -> NoteView {
    match decoded {
        None => NoteView::NotBase64,
        Some(d) => if valid_utf8(d) {
            NoteView::Credentials(decode_utf8(d))
        } else {
            NoteView::NotUtf8
        },
    }
}

/// The notes that a segment gives, in order, under the label `label`.
pub open spec fn segment_notes(label: Seq<u8>, s: Seq<u8>) -> Seq<NoteView> {
    if is_ascii_bytes(s) && has_starttls(s) {
        seq![
            NoteView::Traffic(traffic_text(label, s)),
            NoteView::StartTlsStripped,
            NoteView::Traffic(traffic_text(label, downgraded(s))),
        ]
    } else if is_ascii_bytes(s) && is_auth_plain(s) {
        seq![
            NoteView::EncodedCredentials(credential_blob(s)),
            credential_note_of(base64_decode_of(credential_blob(s))),
            NoteView::Traffic(traffic_text(label, s)),
        ]
    } else {
        seq![NoteView::Traffic(traffic_text(label, s))]
    }
}

/// One inspected segment: the bytes to forward and the notes to log.
pub struct Segment {
    pub data: Vec<u8>,
    pub notes: Vec<Note>,
}

/// The bytes of `250 STARTTLS\r\n`.
fn starttls_needle() -> (r: Vec<u8>)
    ensures
        r@ == starttls_reply(),
{
    let r: Vec<u8> = vec![50u8, 53u8, 48u8, 32u8, 83u8, 84u8, 65u8, 82u8, 84u8, 84u8, 76u8, 83u8, 13u8, 10u8];
    assert(r@ =~= starttls_reply());
    r
}

/// The bytes of `250 AUTH PLAIN`.
fn auth_plain_reply_head_bytes() -> (r: Vec<u8>)
    ensures
        r@ == auth_plain_reply_head(),
{
    let r: Vec<u8> = vec![50u8, 53u8, 48u8, 32u8, 65u8, 85u8, 84u8, 72u8, 32u8, 80u8, 76u8, 65u8, 73u8, 78u8];
    assert(r@ =~= auth_plain_reply_head());
    r
}

/// Whether `s` starts with `AUTH PLAIN`.
fn starts_with_auth_plain(s: &[u8]) -> (r: bool)
    ensures
        r == (s@.len() >= 10 && s@.subrange(0, 10) == auth_plain()),
{
    if s.len() < 10 {
        return false;
    }
    let r = s[0] == 65u8 && s[1] == 85u8 && s[2] == 84u8 && s[3] == 72u8 && s[4] == 32u8
        && s[5] == 80u8 && s[6] == 76u8 && s[7] == 65u8 && s[8] == 73u8 && s[9] == 78u8;
    if r {
        assert(s@.subrange(0, 10) =~= auth_plain());
    } else {
        assert(s@.subrange(0, 10) != auth_plain()) by {
            if s@.subrange(0, 10) == auth_plain() {
                assert(s@.subrange(0, 10)[0] == s@[0]);
                assert(s@.subrange(0, 10)[1] == s@[1]);
                assert(s@.subrange(0, 10)[2] == s@[2]);
                assert(s@.subrange(0, 10)[3] == s@[3]);
                assert(s@.subrange(0, 10)[4] == s@[4]);
                assert(s@.subrange(0, 10)[5] == s@[5]);
                assert(s@.subrange(0, 10)[6] == s@[6]);
                assert(s@.subrange(0, 10)[7] == s@[7]);
                assert(s@.subrange(0, 10)[8] == s@[8]);
                assert(s@.subrange(0, 10)[9] == s@[9]);
            }
        }
    }
    r
}

proof fn lemma_first_occurrence_unique(s: Seq<u8>, p: Seq<u8>, i: int, j: int)
    requires
        is_first_occurrence(s, p, i),
        is_first_occurrence(s, p, j),
    ensures
        i == j,
{
}

/// A sequence that holds `p` in its first or its second part holds it as a whole.
pub proof fn lemma_contains_concat(a: Seq<u8>, b: Seq<u8>, p: Seq<u8>)
    ensures
        contains(a, p) ==> contains(a + b, p),
        contains(b, p) ==> contains(a + b, p),
{
    if contains(a, p) {
        let i = choose|i: int| occurs_at(a, p, i);
        assert((a + b).subrange(i, i + p.len()) =~= a.subrange(i, i + p.len()));
        assert(occurs_at(a + b, p, i));
    }
    if contains(b, p) {
        let i = choose|i: int| occurs_at(b, p, i);
        let k = i + a.len();
        assert((a + b).subrange(k, k + p.len()) =~= b.subrange(i, i + p.len()));
        assert(occurs_at(a + b, p, k));
    }
}

/// A segment that does not hold `250 STARTTLS\r\n` is forwarded exactly as
/// it came.
pub proof fn lemma_forwarded_unchanged(s: Seq<u8>)
    requires
        !contains(s, starttls_reply()),
    ensures
        forwarded(s) == s,
{
    if has_starttls(s) {
        let i = starttls_at(s);
        assert(occurs_at(s, starttls_reply(), i));
    }
}

/// In an ASCII segment whose first `250 STARTTLS\r\n` starts at `i`, exactly
/// that line becomes `250 AUTH PLAIN\r\n`: all bytes before and after it are
/// forwarded unchanged.
pub proof fn lemma_starttls_replaced(s: Seq<u8>, i: int)
    requires
        is_ascii_bytes(s),
        is_first_occurrence(s, starttls_reply(), i),
    ensures
        forwarded(s) == s.subrange(0, i) + auth_plain_reply() + s.subrange(i + 14, s.len() as int),
{
    assert(has_starttls(s));
    lemma_first_occurrence_unique(s, starttls_reply(), i, starttls_at(s));
    let t = s.subrange(i, i + 14);
    assert(t == starttls_reply());
    assert(s[i + 12] == t[12]);
    assert(s[i + 13] == t[13]);
    assert(s.subrange(i + 12, s.len() as int) =~= seq![13u8, 10u8] + s.subrange(i + 14, s.len() as int));
    assert(forwarded(s) =~= s.subrange(0, i) + auth_plain_reply() + s.subrange(i + 14, s.len() as int));
}

/// An ASCII `AUTH PLAIN <blob>\r\n` command whose blob holds no space is
/// forwarded unchanged, and logs, in order: the blob, what decoding it gives
/// (the text, or which decoding failed), and the command itself.
pub proof fn lemma_auth_plain_passes(label: Seq<u8>, blob: Seq<u8>)
    requires
        blob.len() > 0,
        is_ascii_bytes(blob),
        forall|k: int| 0 <= k < blob.len() ==> blob[k] != 32,
    ensures
        ({
            let s = auth_plain() + seq![32u8] + blob + seq![13u8, 10u8];
            &&& forwarded(s) == s
            &&& segment_notes(label, s) == seq![
                NoteView::EncodedCredentials(blob),
                credential_note_of(base64_decode_of(blob)),
                NoteView::Traffic(traffic_text(label, s)),
            ]
        }),
{
    let s = auth_plain() + seq![32u8] + blob + seq![13u8, 10u8];
    let n = s.len();
    assert forall|k: int| 11 <= k < n - 2 implies s[k] == blob[k - 11] by {}
    assert forall|k: int| 0 <= k < n implies s[k] < 128 by {
        if 11 <= k < n - 2 {
            assert(s[k] == blob[k - 11]);
        }
    }
    assert(is_ascii_bytes(s));
    if has_starttls(s) {
        let i = starttls_at(s);
        let t = s.subrange(i, i + 14);
        assert(occurs_at(s, starttls_reply(), i));
        assert(t[3] == 32u8);
        assert(s[i + 3] == t[3]);
        assert(s[i] == t[0]);
        if i + 3 >= 11 && i + 3 < n - 2 {
            assert(s[i + 3] == blob[i + 3 - 11]);
        } else if i + 3 >= n - 2 {
            assert(s[i + 3] == 13u8 || s[i + 3] == 10u8);
        } else {
            assert(s[i] != 50u8);
        }
    }
    assert(s.subrange(0, 10) =~= auth_plain());
    assert(credential_blob(s) =~= blob);
}

/// `buf` with the `250 STARTTLS` that starts at `i` replaced.
fn downgrade_at(buf: &[u8], i: usize) -> (r: Vec<u8>)
    requires
        is_first_occurrence(buf@, starttls_reply(), i as int),
    ensures
        r@ == downgraded(buf@),
{
    proof {
        assert(has_starttls(buf@));
        lemma_first_occurrence_unique(buf@, starttls_reply(), i as int, starttls_at(buf@));
        assert(starttls_reply().len() == 14);
    }
    let n = buf.len();
    let mut out: Vec<u8> = Vec::new();
    push_range(&mut out, buf, 0, i);
    let head = auth_plain_reply_head_bytes();
    push_range(&mut out, head.as_slice(), 0, head.len());
    push_range(&mut out, buf, i + 12, n);
    assert(head@.subrange(0, head@.len() as int) =~= head@);
    assert(out@ =~= downgraded(buf@));
    out
}

/// The note for credentials whose base64 decoding gave `decoded` (`None`
/// where the blob was not base64).
pub fn credential_note(decoded: Option<Vec<u8>>) -> (r: Note)
    ensures
        r@ == credential_note_of(
            match decoded {
                Some(d) => Some(d@),
                None => None,
            },
        ),
{
    match decoded {
        None => Note::NotBase64,
        Some(d) => match string_from_utf8(d) {
            Ok(text) => Note::Credentials(text),
            Err(_) => Note::NotUtf8,
        },
    }
}

/// Inspects one segment under the direction label `label`: where it is ASCII
/// and holds `250 STARTTLS\r\n`, the first of those becomes `250 AUTH PLAIN\r\n`;
/// where it is ASCII and an `AUTH PLAIN` command, its credentials are decoded
/// for the log. Everything else is forwarded as it came.
pub fn inspect(label: &[u8], buf: Vec<u8>) -> (r: Segment)
    ensures
        r.data@ == forwarded(buf@),
        notes_view(r.notes@) == segment_notes(label@, buf@),
{
    let mut notes: Vec<Note> = Vec::new();
    if all_ascii(buf.as_slice()) {
        let needle = starttls_needle();
        match find_bytes(buf.as_slice(), needle.as_slice()) {
            Some(i) => {
                notes.push(Note::Traffic(traffic_line(label, buf.as_slice())));
                notes.push(Note::StartTlsStripped);
                let data = downgrade_at(buf.as_slice(), i);
                notes.push(Note::Traffic(traffic_line(label, data.as_slice())));
                assert(notes_view(notes@) =~= segment_notes(label@, buf@));
                return Segment { data, notes };
            },
            None => {
                assert(!has_starttls(buf@)) by {
                    if has_starttls(buf@) {
                        let k = starttls_at(buf@);
                        assert(occurs_at(buf@, starttls_reply(), k));
                    }
                }
            },
        }
        if starts_with_auth_plain(buf.as_slice()) && buf.len() > 13 {
            let mut blob: Vec<u8> = Vec::new();
            push_range(&mut blob, buf.as_slice(), 11, buf.len() - 2);
            let decoded = match base64_decode(blob.as_slice()) {
                Ok(d) => Some(d),
                Err(_) => None,
            };
            notes.push(Note::EncodedCredentials(blob));
            notes.push(credential_note(decoded));
            notes.push(Note::Traffic(traffic_line(label, buf.as_slice())));
            assert(notes_view(notes@) =~= segment_notes(label@, buf@));
            return Segment { data: buf, notes };
        }
    }
    notes.push(Note::Traffic(traffic_line(label, buf.as_slice())));
    assert(notes_view(notes@) =~= segment_notes(label@, buf@));
    Segment { data: buf, notes }
}

} // verus!
