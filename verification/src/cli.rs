//! Decisions of the command-line front end: option values and the short
//! summaries it prints.
use vstd::prelude::*;
use vstd::utf8::{encode_utf8, is_char_boundary};

use crate::text::{byte_len, byte_len_of, owned, str_eq};

verus! {

/// Output format for non-interactive (print/query) mode.
#[derive(Debug, Clone, Copy, PartialEq, Eq, Structural)]
pub enum OutputFormat {
    /// Plain text: assistant text only, streamed to stdout.
    Text,
    /// Newline-delimited JSON events (one JSON object per line).
    StreamJson,
    /// Single JSON object written after the turn completes.
    Json,
}

/// How tool calls are authorized.
#[derive(Debug, Clone, Copy, PartialEq, Eq, Structural)]
pub enum PermissionChoice {
    AutoApprove,
    Interactive,
    Deny,
}

/// The output format that an option value names: `text`, `stream-json`
/// or `json`; none for anything else.
pub open spec fn spec_output_format(s: Seq<char>) -> Option<OutputFormat> {
    if s == "text"@ {
        Some(OutputFormat::Text)
    } else if s == "stream-json"@ {
        Some(OutputFormat::StreamJson)
    } else if s == "json"@ {
        Some(OutputFormat::Json)
    } else {
        None
    }
}

/// The permission mode that an option value names (`auto`, `interactive`,
/// `deny`), and whether it named one; an unknown value means `auto`.
pub open spec fn spec_permission(s: Seq<char>) -> (PermissionChoice, bool) {
    if s == "interactive"@ {
        (PermissionChoice::Interactive, true)
    } else if s == "deny"@ {
        (PermissionChoice::Deny, true)
    } else if s == "auto"@ {
        (PermissionChoice::AutoApprove, true)
    } else {
        (PermissionChoice::AutoApprove, false)
    }
}

/// The decimal digits of `n`.
pub open spec fn decimal(n: nat) -> Seq<char>
    decreases n,
{
    if n < 10 {
        seq![digit_char(n)]
    } else {
        decimal(n / 10) + seq![digit_char(n % 10)]
    }
}

pub open spec fn digit_char(d: nat) -> char {
    if d == 0 {
        '0'
    } else if d == 1 {
        '1'
    } else if d == 2 {
        '2'
    } else if d == 3 {
        '3'
    } else if d == 4 {
        '4'
    } else if d == 5 {
        '5'
    } else if d == 6 {
        '6'
    } else if d == 7 {
        '7'
    } else if d == 8 {
        '8'
    } else {
        '9'
    }
}

/// `n` rounded to a multiple of `d`, ties to an even multiple.
pub open spec fn round_multiple(n: nat, d: nat) -> nat {
    let q = n / d;
    let r = n % d;
    if r * 2 > d || (r * 2 == d && q % 2 == 1) {
        (q + 1) * d
    } else {
        q * d
    }
}

/// The value of `n as f64` (round to nearest, ties to even, 53-bit
/// significand), a whole number for every `u64`.
pub open spec fn f64_of(n: u64) -> nat {
    if n < 0x20_0000_0000_0000 {
        n as nat
    } else if n < 0x40_0000_0000_0000 {
        round_multiple(n as nat, 2)
    } else if n < 0x80_0000_0000_0000 {
        round_multiple(n as nat, 4)
    } else if n < 0x100_0000_0000_0000 {
        round_multiple(n as nat, 8)
    } else if n < 0x200_0000_0000_0000 {
        round_multiple(n as nat, 16)
    } else if n < 0x400_0000_0000_0000 {
        round_multiple(n as nat, 32)
    } else if n < 0x800_0000_0000_0000 {
        round_multiple(n as nat, 64)
    } else if n < 0x1000_0000_0000_0000 {
        round_multiple(n as nat, 128)
    } else if n < 0x2000_0000_0000_0000 {
        round_multiple(n as nat, 256)
    } else if n < 0x4000_0000_0000_0000 {
        round_multiple(n as nat, 512)
    } else if n < 0x8000_0000_0000_0000 {
        round_multiple(n as nat, 1024)
    } else {
        round_multiple(n as nat, 2048)
    }
}

/// `v / 1024` in tenths, rounded to the nearest tenth, ties to even (what
/// `{:.1}` prints of the exact quotient).
pub open spec fn kib_tenths(v: nat) -> nat {
    round_multiple(v * 10, 1024) / 1024
}

/// What `byte_summary` prints for `len` bytes: `<len> bytes` below 1024,
/// else the size in KB with one decimal, `<int>.<tenth> KB`.
pub open spec fn spec_byte_summary(len: u64) -> Seq<char> {
    if len < 1024 {
        decimal(len as nat) + " bytes"@
    } else {
        let t = kib_tenths(f64_of(len));
        decimal(t / 10) + seq!['.', digit_char(t % 10)] + " KB"@
    }
}

// ---------------------------------------------------------------------------

/// The output format an option value names.
pub fn parse_output_format(s: &str) -> (r: Option<OutputFormat>)
    ensures
        r == spec_output_format(s@),
{
    if str_eq(s, "text") {
        Some(OutputFormat::Text)
    } else if str_eq(s, "stream-json") {
        Some(OutputFormat::StreamJson)
    } else if str_eq(s, "json") {
        Some(OutputFormat::Json)
    } else {
        None
    }
}

/// The permission mode an option value names, and whether it named one.
pub fn parse_permission(s: &str) -> (r: (PermissionChoice, bool))
    ensures
        r == spec_permission(s@),
{
    if str_eq(s, "interactive") {
        (PermissionChoice::Interactive, true)
    } else if str_eq(s, "deny") {
        (PermissionChoice::Deny, true)
    } else if str_eq(s, "auto") {
        (PermissionChoice::AutoApprove, true)
    } else {
        (PermissionChoice::AutoApprove, false)
    }
}

fn digit(d: u128) -> (c: char)
    requires
        d < 10,
    ensures
        c == digit_char(d as nat),
{
    if d == 0 {
        '0'
    } else if d == 1 {
        '1'
    } else if d == 2 {
        '2'
    } else if d == 3 {
        '3'
    } else if d == 4 {
        '4'
    } else if d == 5 {
        '5'
    } else if d == 6 {
        '6'
    } else if d == 7 {
        '7'
    } else if d == 8 {
        '8'
    } else {
        '9'
    }
}

/// `String::push`: `s` with `c` added at the end.
#[verifier::external_body]
fn push_char(s: &mut String, c: char)
    ensures
        final(s)@ == old(s)@.push(c),
{
    s.push(c);
}

/// The decimal digits of `n`.
pub fn decimal_string(n: u128) -> (r: String)
    ensures
        r@ == decimal(n as nat),
    decreases n,
{
    if n < 10 {
        let mut r = String::new();
        push_char(&mut r, digit(n));
        assert(r@ =~= decimal(n as nat));
        r
    } else {
        let mut r = decimal_string(n / 10);
        push_char(&mut r, digit(n % 10));
        assert(r@ =~= decimal(n as nat));
        r
    }
}

fn round_multiple_exec(n: u128, d: u128) -> (r: u128)
    requires
        d > 0,
        n <= 0x1_0000_0000_0000_0000 * 16,
        d <= 2048,
    ensures
        r == round_multiple(n as nat, d as nat),
{
    let q = n / d;
    let r = n % d;
    assert(q * d + r == n && r < d) by (nonlinear_arith)
        requires
            q == n / d,
            r == n % d,
            d > 0,
    ;
    assert(q * d <= n && (q + 1) * d <= n + d) by (nonlinear_arith)
        requires
            q * d + r == n,
            r < d,
            0 <= r,
    ;
    assert(q * d + r == n && r < d) by (nonlinear_arith)
        requires
            q == n / d,
            r == n % d,
            d > 0,
    ;
    assert(q * d <= n && (q + 1) * d <= n + d) by (nonlinear_arith)
        requires
            q * d + r == n,
            r < d,
            0 <= r,
    ;
    if r * 2 > d || (r * 2 == d && q % 2 == 1) {
        (q + 1) * d
    } else {
        q * d
    }
}

/// The value of `n as f64`, as a whole number.
fn f64_value(n: u64) -> (r: u128)
    ensures
        r == f64_of(n),
{
    let x = n as u128;
    let d: u128 = if n < 0x20_0000_0000_0000 {
        1
    } else if n < 0x40_0000_0000_0000 {
        2
    } else if n < 0x80_0000_0000_0000 {
        4
    } else if n < 0x100_0000_0000_0000 {
        8
    } else if n < 0x200_0000_0000_0000 {
        16
    } else if n < 0x400_0000_0000_0000 {
        32
    } else if n < 0x800_0000_0000_0000 {
        64
    } else if n < 0x1000_0000_0000_0000 {
        128
    } else if n < 0x2000_0000_0000_0000 {
        256
    } else if n < 0x4000_0000_0000_0000 {
        512
    } else if n < 0x8000_0000_0000_0000 {
        1024
    } else {
        2048
    };
    if d == 1 {
        x
    } else {
        round_multiple_exec(x, d)
    }
}

/// A size summary: `<n> bytes` below 1 KiB, else `<x.y> KB`.
pub fn byte_summary(s: &str) -> (r: String)
    ensures
        r@ == spec_byte_summary(byte_len(s@) as u64),
{
    let len = byte_len_of(s);
    let n = len as u64;
    if n < 1024 {
        let mut r = decimal_string(n as u128);
        r.append(" bytes");
        r
    } else {
        let v = f64_value(n);
        assert(v <= 0x1_0000_0000_0000_0000) by {
            assert(f64_of(n) <= 0x1_0000_0000_0000_0000);
        }
        let t = round_multiple_exec(v * 10, 1024) / 1024;
        let mut r = decimal_string(t / 10);
        push_char(&mut r, '.');
        push_char(&mut r, digit(t % 10));
        r.append(" KB");
        r
    }
}

/// `s` cut to its first `max` bytes with `...` added, when it is longer.
pub fn truncate(s: &str, max: usize) -> (r: String)
    requires
        byte_len(s@) > max ==> is_char_boundary(encode_utf8(s@), max as int),
    ensures
        byte_len(s@) <= max ==> r@ == s@,
        byte_len(s@) > max ==> encode_utf8(r@) == encode_utf8(s@).subrange(0, max as int)
            + encode_utf8("..."@),
{
    if byte_len_of(s) <= max {
        owned(s)
    } else {
        let (head, _) = s.split_at(max);
        let mut r = owned(head);
        r.append("...");
        proof {
            lemma_encode_concat(head@, "..."@);
        }
        r
    }
}

/// UTF-8 encoding distributes over concatenation.
pub proof fn lemma_encode_concat(a: Seq<char>, b: Seq<char>)
    ensures
        encode_utf8(a + b) == encode_utf8(a) + encode_utf8(b),
    decreases a.len(),
{
    if a.len() == 0 {
        assert(a + b =~= b);
        assert(encode_utf8(a) =~= Seq::<u8>::empty());
        assert(encode_utf8(a) + encode_utf8(b) =~= encode_utf8(b));
    } else {
        lemma_encode_concat(a.drop_first(), b);
        assert((a + b).drop_first() =~= a.drop_first() + b);
        assert((a + b)[0] == a[0]);
        assert(encode_utf8(a + b) =~= encode_utf8(a) + encode_utf8(b));
    }
}

} // verus!
