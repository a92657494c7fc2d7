//! Presentation text: IEC byte counts, canonical unavailable-state phrases,
//! evidence phrases, labels, clipping, and process-overlay column widths.
//! No function here changes canonical data.
use vstd::prelude::*;
use crate::model::{ObservationState, Timestamp, phrase, state_phrase};
use crate::source::Reading;
use crate::text::{
    chars_of, string_of, extend_chars, push_decimal, decimal, trim, trim_start, trimmed,
    leading_ws, lemma_leading_ws_bound, char_is_whitespace, is_whitespace,
};

verus! {

/// `n / d` rounded to the nearest integer, ties to even.
pub open spec fn round_half_even(n: nat, d: nat) -> nat
    recommends
        d > 0,
{
    let q = n / d;
    let r = n % d;
    if 2 * r > d || (2 * r == d && q % 2 == 1) {
        q + 1
    } else {
        q
    }
}

pub fn round_half_even_exec(n: u128, d: u128) -> (r: u128)
    requires
        d > 0,
        n / d < u128::MAX,
    ensures
        r == round_half_even(n as nat, d as nat),
{
    let q = n / d;
    let rem = n % d;
    if rem > d - rem || (rem == d - rem && q % 2 == 1) {
        q + 1
    } else {
        q
    }
}

/// `1024^k`.
pub open spec fn kibi(k: nat) -> nat
    decreases k,
{
    if k == 0 {
        1
    } else {
        1024 * kibi((k - 1) as nat)
    }
}

/// The IEC unit an amount is shown in: the largest of B, KiB, MiB, GiB, TiB
/// that the amount reaches.
pub open spec fn iec_unit(bytes: nat) -> nat {
    if bytes >= kibi(4) {
        4
    } else if bytes >= kibi(3) {
        3
    } else if bytes >= kibi(2) {
        2
    } else if bytes >= kibi(1) {
        1
    } else {
        0
    }
}

pub open spec fn unit_name(unit: nat) -> Seq<char> {
    if unit == 1 {
        "KiB"@
    } else if unit == 2 {
        "MiB"@
    } else if unit == 3 {
        "GiB"@
    } else {
        "TiB"@
    }
}

/// A tenths count as `whole.tenth`.
pub open spec fn tenths_text(tenths: nat) -> Seq<char> {
    decimal(tenths / 10) + seq!['.'] + decimal(tenths % 10)
}

/// An IEC byte count: whole bytes below 1 KiB (`640 B`), otherwise the
/// exact amount in its unit rounded to one decimal, ties to even
/// (`1.5 GiB`, `512.0 MiB`).
pub open spec fn iec_text(bytes: nat) -> Seq<char> {
    let unit = iec_unit(bytes);
    if unit == 0 {
        decimal(bytes) + " B"@
    } else {
        tenths_text(round_half_even(bytes * 10, kibi(unit))) + seq![' '] + unit_name(unit)
    }
}

/// Formats a byte count with IEC units and one decimal.
pub fn iec_bytes(bytes: u64) -> (r: String)
    ensures
        r@ == iec_text(bytes as nat),
{
    proof {
        reveal_with_fuel(kibi, 5);
    }
    let mut out: Vec<char> = Vec::new();
    let b = bytes as u128;
    let unit: u128 = if b >= 1099511627776 {
        4
    } else if b >= 1073741824 {
        3
    } else if b >= 1048576 {
        2
    } else if b >= 1024 {
        1
    } else {
        0
    };
    if unit == 0 {
        push_decimal(&mut out, b);
        extend_chars(&mut out, " B");
        return string_of(&out);
    }
    let divisor: u128 = if unit == 4 {
        1099511627776
    } else if unit == 3 {
        1073741824
    } else if unit == 2 {
        1048576
    } else {
        1024
    };
    assert(divisor == kibi(unit as nat));
    let tenths = round_half_even_exec(b * 10, divisor);
    push_decimal(&mut out, tenths / 10);
    out.push('.');
    push_decimal(&mut out, tenths % 10);
    out.push(' ');
    let name = if unit == 1 {
        "KiB"
    } else if unit == 2 {
        "MiB"
    } else if unit == 3 {
        "GiB"
    } else {
        "TiB"
    };
    extend_chars(&mut out, name);
    proof {
        assert(out@ =~= iec_text(bytes as nat));
    }
    string_of(&out)
}

/// The evidence phrase of a reading without a value.
pub open spec fn evidence_phrase<T>(reading: Reading<T>) -> Seq<char> {
    match reading {
        Reading::Value(_) => Seq::empty(),
        Reading::Absent => "absent"@,
        Reading::Sentinel => "unavailable"@,
        Reading::Asleep => "asleep"@,
        Reading::PermissionDenied => "permission denied"@,
        Reading::UnsupportedDriver => "unsupported driver version"@,
        Reading::Malformed => "malformed"@,
        Reading::Error => "source error"@,
    }
}

/// Exact evidence phrase for a process-source reading without a value.
pub fn reading_phrase<T>(reading: &Reading<T>) -> (r: &'static str)
    ensures
        r@ == evidence_phrase(*reading),
{
    proof {
        reveal_strlit("");
    }
    match reading {
        Reading::Value(_) => "",
        Reading::Absent => "absent",
        Reading::Sentinel => "unavailable",
        Reading::Asleep => "asleep",
        Reading::PermissionDenied => "permission denied",
        Reading::UnsupportedDriver => "unsupported driver version",
        Reading::Malformed => "malformed",
        Reading::Error => "source error",
    }
}

/// Display label of a pool name: known pools get their display case,
/// unknown pools pass through.
pub open spec fn pool_display(pool: Seq<char>) -> Seq<char> {
    if pool == "vram"@ {
        "VRAM"@
    } else if pool == "shared"@ {
        "shared"@
    } else if pool == "gtt"@ {
        "GTT"@
    } else {
        pool
    }
}

/// Human label for a memory pool name.
pub fn pool_label(pool: &str) -> (r: &str)
    ensures
        r@ == pool_display(pool@),
{
    if crate::text::same_text(pool, "vram") {
        "VRAM"
    } else if crate::text::same_text(pool, "shared") {
        "shared"
    } else if crate::text::same_text(pool, "gtt") {
        "GTT"
    } else {
        pool
    }
}

/// Nanoseconds from `from` to `to`, zero when `to` is not later.
pub open spec fn elapsed_nanos(from: Timestamp, to: Timestamp) -> nat {
    if to.unix_nanos > from.unix_nanos {
        (to.unix_nanos - from.unix_nanos) as nat
    } else {
        0
    }
}

pub fn elapsed(from: Timestamp, to: Timestamp) -> (r: u128)
    ensures
        r == elapsed_nanos(from, to),
{
    let a = from.unix_nanos;
    let b = to.unix_nanos;
    if b <= a {
        0
    } else if a >= 0 {
        (b - a) as u128
    } else if b < 0 {
        (b - a) as u128
    } else {
        let below = (-(a + 1)) as u128;
        (b as u128) + below + 1
    }
}

/// The phrase of an unavailable observation: a stale one with its last good
/// time reads `stale 4.2s` (its age at `sampled_at`, tenths rounded ties to
/// even, never negative); every other state reads its canonical phrase.
pub open spec fn unavailable_text(
    state: ObservationState,
    observed_at: Option<Timestamp>,
    sampled_at: Timestamp,
) -> Seq<char> {
    match observed_at {
        Some(last_good) => if state == ObservationState::Stale {
            "stale "@ + tenths_text(round_half_even(elapsed_nanos(last_good, sampled_at), 100_000_000))
                + "s"@
        } else {
            phrase(state)
        },
        None => phrase(state),
    }
}

/// Canonical phrase for an unavailable observation.
pub fn unavailable_phrase(
    state: &ObservationState,
    observed_at: Option<Timestamp>,
    sampled_at: Timestamp,
) -> (r: String)
    ensures
        r@ == unavailable_text(*state, observed_at, sampled_at),
{
    if let ObservationState::Stale = state {
        if let Some(last_good) = observed_at {
            let age = elapsed(last_good, sampled_at);
            let tenths = round_half_even_exec(age, 100_000_000);
            let mut out: Vec<char> = Vec::new();
            extend_chars(&mut out, "stale ");
            push_decimal(&mut out, tenths / 10);
            out.push('.');
            push_decimal(&mut out, tenths % 10);
            extend_chars(&mut out, "s");
            proof {
                assert(out@ =~= unavailable_text(*state, observed_at, sampled_at));
            }
            return string_of(&out);
        }
    }
    state_phrase(state).to_owned()
}

/// A memory amount in a table cell: IEC bytes, a dash for structural
/// absence, the evidence phrase otherwise.
pub open spec fn memory_text(reading: Reading<u64>) -> Seq<char> {
    match reading {
        Reading::Value(bytes) => iec_text(bytes as nat),
        Reading::Absent => "—"@,
        _ => evidence_phrase(reading),
    }
}

/// Renders a memory reading for the process table.
pub fn memory_cell(reading: &Reading<u64>) -> (r: String)
    ensures
        r@ == memory_text(*reading),
{
    match reading {
        Reading::Value(bytes) => iec_bytes(*bytes),
        Reading::Absent => "—".to_owned(),
        other => reading_phrase(other).to_owned(),
    }
}

/// The text cut to `max` characters, the last replaced by an ellipsis when
/// anything was cut.
pub open spec fn clipped(text: Seq<char>, max: nat) -> Seq<char> {
    if text.len() <= max {
        text
    } else {
        text.take(if max >= 1 {
            max - 1
        } else {
            0
        }).push('…')
    }
}

/// Truncates to `max` characters with a trailing ellipsis.
pub fn clip(text: &str, max: usize) -> (r: String)
    ensures
        r@ == clipped(text@, max as nat),
{
    let chars = chars_of(text);
    if chars.len() <= max {
        return text.to_owned();
    }
    let keep = if max >= 1 {
        max - 1
    } else {
        0
    };
    let mut out: Vec<char> = Vec::new();
    let mut i: usize = 0;
    while i < keep
        invariant
            i <= keep,
            keep < chars.len(),
            chars@ == text@,
            out@ == chars@.take(i as int),
        decreases keep - i,
    {
        out.push(chars[i]);
        proof {
            assert(chars@.take(i + 1) =~= chars@.take(i as int).push(chars@[i as int]));
        }
        i = i + 1;
    }
    out.push('…');
    string_of(&out)
}

/// Whether `s` starts with `prefix`.
pub open spec fn starts_with(s: Seq<char>, prefix: Seq<char>) -> bool {
    prefix.len() <= s.len() && s.take(prefix.len() as int) == prefix
}

/// One pass of vendor-prefix stripping: `AMD `, then `Radeon `, then
/// `Instinct `, each followed by leading whitespace.
pub open spec fn strip_pass(s: Seq<char>) -> Seq<char> {
    let a = if starts_with(s, "AMD "@) {
        trim_start(s.skip(4))
    } else {
        s
    };
    let b = if starts_with(a, "Radeon "@) {
        trim_start(a.skip(7))
    } else {
        a
    };
    if starts_with(b, "Instinct "@) {
        trim_start(b.skip(9))
    } else {
        b
    }
}

/// Whether a pass strips anything.
pub open spec fn strips(s: Seq<char>) -> bool {
    starts_with(s, "AMD "@) || starts_with(
        if starts_with(s, "AMD "@) {
            trim_start(s.skip(4))
        } else {
            s
        },
        "Radeon "@,
    ) || starts_with(
        if starts_with(
            if starts_with(s, "AMD "@) {
                trim_start(s.skip(4))
            } else {
                s
            },
            "Radeon "@,
        ) {
            trim_start(
                (if starts_with(s, "AMD "@) {
                    trim_start(s.skip(4))
                } else {
                    s
                }).skip(7),
            )
        } else {
            if starts_with(s, "AMD "@) {
                trim_start(s.skip(4))
            } else {
                s
            }
        },
        "Instinct "@,
    )
}

pub proof fn lemma_trim_start_shorter(s: Seq<char>)
    ensures
        trim_start(s).len() <= s.len(),
{
    lemma_leading_ws_bound(s);
}

pub proof fn lemma_strip_pass_shrinks(s: Seq<char>)
    ensures
        strip_pass(s).len() <= s.len(),
        strips(s) ==> strip_pass(s).len() < s.len(),
{
    reveal_strlit("AMD ");
    reveal_strlit("Radeon ");
    reveal_strlit("Instinct ");
    let a = if starts_with(s, "AMD "@) {
        trim_start(s.skip(4))
    } else {
        s
    };
    lemma_trim_start_shorter(s.skip(4));
    let b = if starts_with(a, "Radeon "@) {
        trim_start(a.skip(7))
    } else {
        a
    };
    lemma_trim_start_shorter(a.skip(7));
    lemma_trim_start_shorter(b.skip(9));
}

/// Vendor prefixes stripped until a pass strips nothing.
pub open spec fn strip_vendor(s: Seq<char>) -> Seq<char>
    decreases s.len(),
{
    if strips(s) {
        proof {
            lemma_strip_pass_shrinks(s);
        }
        strip_vendor(strip_pass(s))
    } else {
        s
    }
}

/// The compact model name: vendor words stripped (the whole trimmed name
/// when nothing else remains), clipped to 16 characters.
pub open spec fn short_name_text(name: Seq<char>) -> Seq<char> {
    let stripped = strip_vendor(trim(name));
    clipped(if stripped.len() == 0 {
        trim(name)
    } else {
        stripped
    }, 16)
}

fn prefix_at(s: &Vec<char>, prefix: &str) -> (r: bool)
    ensures
        r == starts_with(s@, prefix@),
{
    let p = chars_of(prefix);
    if p.len() > s.len() {
        return false;
    }
    let mut i: usize = 0;
    while i < p.len()
        invariant
            i <= p.len(),
            p.len() <= s.len(),
            p@ == prefix@,
            forall|j: int| 0 <= j < i ==> s@[j] == p@[j],
        decreases p.len() - i,
    {
        if s[i] != p[i] {
            return false;
        }
        i = i + 1;
    }
    proof {
        assert(s@.take(p.len() as int) =~= p@);
    }
    true
}

fn skip_then_trim_start(s: &Vec<char>, n: usize) -> (r: Vec<char>)
    requires
        n <= s.len(),
    ensures
        r@ == trim_start(s@.skip(n as int)),
{
    let mut start = n;
    while start < s.len() && char_is_whitespace(s[start])
        invariant
            n <= start <= s.len(),
            forall|j: int| n <= j < start ==> is_whitespace(#[trigger] s@[j]),
        decreases s.len() - start,
    {
        start = start + 1;
    }
    proof {
        let rest = s@.skip(n as int);
        assert forall|j: int| 0 <= j < start - n implies is_whitespace(#[trigger] rest[j]) by {
            assert(rest[j] == s@[n + j]);
        }
        if start < s.len() {
            assert(rest[start - n] == s@[start as int]);
        }
        crate::text::lemma_leading_ws(rest, start - n);
    }
    let mut out: Vec<char> = Vec::new();
    let mut i = start;
    while i < s.len()
        invariant
            start <= i <= s.len(),
            out@ == s@.subrange(start as int, i as int),
        decreases s.len() - i,
    {
        out.push(s[i]);
        proof {
            assert(s@.subrange(start as int, i + 1) =~= s@.subrange(start as int, i as int).push(
                s@[i as int],
            ));
        }
        i = i + 1;
    }
    proof {
        assert(out@ =~= trim_start(s@.skip(n as int)));
    }
    out
}

/// Shortens a model name for the GPU strip.
pub fn short_name(name: &str) -> (r: String)
    ensures
        r@ == short_name_text(name@),
{
    proof {
        reveal_strlit("AMD ");
        reveal_strlit("Radeon ");
        reveal_strlit("Instinct ");
    }
    let whole = trimmed(&chars_of(name));
    let mut current = trimmed(&chars_of(name));
    loop
        invariant
            whole@ == trim(name@),
            strip_vendor(current@) == strip_vendor(trim(name@)),
        ensures
            whole@ == trim(name@),
            current@ == strip_vendor(trim(name@)),
        decreases current@.len(),
    {
        proof {
            reveal_strlit("AMD ");
            reveal_strlit("Radeon ");
            reveal_strlit("Instinct ");
        }
        let a = if prefix_at(&current, "AMD ") {
            skip_then_trim_start(&current, 4)
        } else {
            current.clone()
        };
        let b = if prefix_at(&a, "Radeon ") {
            skip_then_trim_start(&a, 7)
        } else {
            a.clone()
        };
        let c = if prefix_at(&b, "Instinct ") {
            skip_then_trim_start(&b, 9)
        } else {
            b.clone()
        };
        let stripped = prefix_at(&current, "AMD ") || prefix_at(&a, "Radeon ") || prefix_at(
            &b,
            "Instinct ",
        );
        if !stripped {
            break;
        }
        proof {
            lemma_strip_pass_shrinks(current@);
            assert(c@ == strip_pass(current@));
        }
        current = c;
    }
    let chosen = if current.len() == 0 {
        whole
    } else {
        current
    };
    clip(string_of(&chosen).as_str(), 16)
}

/// Widths of the seven process-overlay columns (PID, name, GPU/XCP, VRAM,
/// GTT, KFD, container) for a `total`-cell line with two-cell gaps: PID 7,
/// name 17, and the rest shared evenly, earlier columns taking the spare
/// cells.
pub open spec fn column_widths(total: nat) -> Seq<nat> {
    let spare: nat = if total >= 36 {
        (total - 36) as nat
    } else {
        0
    };
    Seq::new(
        7,
        |i: int|
            if i == 0 {
                7
            } else if i == 1 {
                17
            } else if i - 2 < spare % 5 {
                spare / 5 + 1
            } else {
                spare / 5
            },
    )
}

/// Shares the process overlay's width among its columns.
pub fn process_column_widths(total: usize) -> (r: Vec<usize>)
    ensures
        r@.len() == 7,
        forall|i: int| 0 <= i < 7 ==> r@[i] == column_widths(total as nat)[i],
        r@[0] == 7,
        r@[1] == 17,
        forall|i: int, j: int| 2 <= i < 7 && 2 <= j < 7 ==> r@[i] <= r@[j] + 1,
        total >= 36 ==> r@[0] + r@[1] + r@[2] + r@[3] + r@[4] + r@[5] + r@[6] + 12 == total,
{
    let spare: usize = if total >= 36 {
        total - 36
    } else {
        0
    };
    let base = spare / 5;
    let extra = spare % 5;
    let mut widths: Vec<usize> = Vec::new();
    widths.push(7);
    widths.push(17);
    let mut k: usize = 0;
    while k < 5
        invariant
            k <= 5,
            widths@.len() == 2 + k,
            widths@[0] == 7,
            widths@[1] == 17,
            base == spare / 5,
            extra == spare % 5,
            forall|i: int|
                2 <= i < 2 + k ==> widths@[i] == (if i - 2 < extra {
                    base + 1
                } else {
                    base as int
                }),
        decreases 5 - k,
    {
        if k < extra {
            widths.push(base + 1);
        } else {
            widths.push(base);
        }
        k = k + 1;
    }
    proof {
        assert(spare == 5 * base + extra);
    }
    widths
}

} // verus!
