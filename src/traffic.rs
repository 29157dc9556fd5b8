//! The log line written for each segment that goes by.

use vstd::prelude::*;
use crate::bytes::{is_ascii_bytes, all_ascii, push_all};
use vstd::string::StringSliceAdditionalSpecFns;

verus! {

/// `<CR>` in place of a carriage return, `<LF>` in place of a line feed.
pub open spec fn escape_byte(b: u8) -> Seq<u8> {
    if b == 13 {
        seq![60u8, 67u8, 82u8, 62u8]
    } else if b == 10 {
        seq![60u8, 76u8, 70u8, 62u8]
    } else {
        seq![b]
    }
}

/// ASCII text with line breaks made visible.
pub open spec fn escaped(s: Seq<u8>) -> Seq<u8>
    decreases s.len(),
{
    if s.len() == 0 {
        seq![]
    } else {
        escaped(s.drop_last()) + escape_byte(s.last())
    }
}

/// The decimal digits of `n`, in ASCII.
pub open spec fn decimal(n: nat) -> Seq<u8>
    decreases n,
{
    if n < 10 {
        seq![(48 + n) as u8]
    } else {
        decimal(n / 10) + seq![(48 + n % 10) as u8]
    }
}

/// The numbers of `s` in decimal, separated by `, `.
pub open spec fn joined(s: Seq<u8>) -> Seq<u8>
    decreases s.len(),
{
    if s.len() == 0 {
        seq![]
    } else if s.len() == 1 {
        decimal(s[0] as nat)
    } else {
        joined(s.drop_last()) + seq![44u8, 32u8] + decimal(s.last() as nat)
    }
}

/// A byte list as `[1, 2, 3]`.
pub open spec fn byte_list(s: Seq<u8>) -> Seq<u8> {
    seq![91u8] + joined(s) + seq![93u8]
}

/// The log line of a segment: the label, a space, then the segment as text
/// with visible line breaks where it is ASCII, as a byte list otherwise.
pub open spec fn traffic_text(label: Seq<u8>, s: Seq<u8>) -> Seq<u8> {
    label + seq![32u8] + if is_ascii_bytes(s) {
        escaped(s)
    } else {
        byte_list(s)
    }
}

fn push_escaped(dst: &mut Vec<u8>, s: &[u8])
    ensures
        final(dst)@ == old(dst)@ + escaped(s@),
{
    let mut i: usize = 0;
    while i < s.len()
        invariant
            i <= s@.len(),
            dst@ == old(dst)@ + escaped(s@.subrange(0, i as int)),
        decreases s@.len() - i,
    {
        let b = s[i];
        proof {
            let t = s@.subrange(0, i as int + 1);
            assert(t.drop_last() =~= s@.subrange(0, i as int));
            assert(t.last() == b);
        }
        if b == 13 {
            dst.push(60u8);
            dst.push(67u8);
            dst.push(82u8);
            dst.push(62u8);
        } else if b == 10 {
            dst.push(60u8);
            dst.push(76u8);
            dst.push(70u8);
            dst.push(62u8);
        } else {
            dst.push(b);
        }
        i = i + 1;
        assert(dst@ =~= old(dst)@ + escaped(s@.subrange(0, i as int)));
    }
    assert(s@.subrange(0, s@.len() as int) =~= s@);
}

fn push_decimal(dst: &mut Vec<u8>, b: u8)
    ensures
        final(dst)@ == old(dst)@ + decimal(b as nat),
{
    let ghost n = b as nat;
    if b >= 100 {
        dst.push(48u8 + b / 100);
        dst.push(48u8 + (b / 10) % 10);
        dst.push(48u8 + b % 10);
        assert(decimal(n / 100) == seq![(48 + n / 100) as u8]);
        assert(n / 10 / 10 == n / 100);
        assert(decimal(n / 10) == decimal(n / 100) + seq![(48 + (n / 10) % 10) as u8]);
        assert(dst@ =~= old(dst)@ + decimal(n));
    } else if b >= 10 {
        dst.push(48u8 + b / 10);
        dst.push(48u8 + b % 10);
        assert(decimal(n / 10) == seq![(48 + n / 10) as u8]);
        assert(dst@ =~= old(dst)@ + decimal(n));
    } else {
        dst.push(48u8 + b);
        assert(dst@ =~= old(dst)@ + decimal(n));
    }
}

fn push_byte_list(dst: &mut Vec<u8>, s: &[u8])
    ensures
        final(dst)@ == old(dst)@ + byte_list(s@),
{
    dst.push(91u8);
    let ghost start = dst@;
    let mut i: usize = 0;
    while i < s.len()
        invariant
            i <= s@.len(),
            dst@ == start + joined(s@.subrange(0, i as int)),
        decreases s@.len() - i,
    {
        proof {
            let t = s@.subrange(0, i as int + 1);
            assert(t.drop_last() =~= s@.subrange(0, i as int));
            assert(t.last() == s@[i as int]);
        }
        if i > 0 {
            dst.push(44u8);
            dst.push(32u8);
        }
        push_decimal(dst, s[i]);
        i = i + 1;
        assert(dst@ =~= start + joined(s@.subrange(0, i as int)));
    }
    assert(s@.subrange(0, s@.len() as int) =~= s@);
    dst.push(93u8);
    assert(dst@ =~= old(dst)@ + byte_list(s@));
}

/// The log line for `buf` under the label `label`.
pub fn traffic_line(label: &[u8], buf: &[u8]) -> (r: Vec<u8>)
    ensures
        r@ == traffic_text(label@, buf@),
{
    let mut line: Vec<u8> = Vec::new();
    push_all(&mut line, label);
    line.push(32u8);
    if all_ascii(buf) {
        push_escaped(&mut line, buf);
    } else {
        push_byte_list(&mut line, buf);
    }
    assert(line@ =~= traffic_text(label@, buf@));
    line
}

/// The log line for `buf` under the direction label `prefix`, as bytes of
/// ASCII text where the label is.
pub fn info(prefix: &str, buf: &[u8]) -> (r: Vec<u8>)
    ensures
        r@ == traffic_text(prefix.spec_bytes(), buf@),
{
    traffic_line(prefix.as_bytes(), buf)
}

} // verus!
