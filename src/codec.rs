//! The fixed-width filename encoding of a parameter vector, and the
//! re-quantization of legacy three-digit encodings.
use vstd::prelude::*;
use vstd::string::StringSliceAdditionalSpecFns;
use vstd::utf8::{is_ascii_chars, is_ascii_chars_encode_utf8};

use binary_search::{binary_search, Direction};

use crate::engine::{CinterEngine, EngineTables, non_decreasing};
use crate::mapping::{
    legacy_pitch_step, level_limit, levels_valid, pitchfun3, LEVEL_COUNT, MAX_DECILE, MAX_PERCENT,
    PARAMETER_COUNT, PERCENT_FIELDS,
};

verus! {

/// Length of an encoded name: the marker, eight two-digit fields and four one-digit fields.
pub const NAME_LENGTH: usize = 21;

/// Why a name could not be decoded.
#[derive(Clone, Copy, Debug, PartialEq, Eq)]
pub enum FilenameError {
    /// The name ends before the field with this index.
    TooShort { field: usize },
    /// The field with this index is neither decimal digits nor the placeholder.
    BadDigits { field: usize },
}

/// Character of decimal digit `d`.
pub open spec fn digit_char(d: int) -> char {
    ((48 + d) as u8) as char
}

/// Characters that encode level `v` of field `i`: two digits (one for the
/// deciles), with the largest level written as `XX` (or `X`).
pub open spec fn field_chars(i: int, v: int) -> Seq<char> {
    if i < PERCENT_FIELDS {
        if v == MAX_PERCENT {
            seq!['X', 'X']
        } else {
            seq![digit_char((v / 10) as int), digit_char((v % 10) as int)]
        }
    } else {
        if v == MAX_DECILE {
            seq!['X']
        } else {
            seq![digit_char(v)]
        }
    }
}

/// Characters of the first `n` fields.
pub open spec fn fields_chars(levels: Seq<u32>, n: int) -> Seq<char>
    decreases n,
{
    if n <= 0 {
        seq![]
    } else {
        fields_chars(levels, n - 1) + field_chars(n - 1, levels[n - 1] as int)
    }
}

/// The encoded name: the current-format marker `1`, then every field.
pub open spec fn filename_chars(levels: Seq<u32>) -> Seq<char> {
    seq!['1'] + fields_chars(levels, PARAMETER_COUNT as int)
}

/// Position of field `i` in an encoded name.
pub open spec fn field_start(i: int) -> int {
    if i < PERCENT_FIELDS {
        2 * i + 1
    } else {
        i + 9
    }
}

/// Width of field `i` in an encoded name.
pub open spec fn field_width(i: int) -> int {
    if i < PERCENT_FIELDS {
        2
    } else {
        1
    }
}

/// An ASCII decimal digit.
pub open spec fn is_digit(c: u8) -> bool {
    48 <= c <= 57
}

/// The placeholder letter, in either case.
pub open spec fn is_placeholder(c: u8) -> bool {
    c == 88 || c == 120
}

/// Level that the bytes of field `i` hold, if they hold one.
pub open spec fn field_value(b: Seq<u8>, i: int) -> Option<u32> {
    let s = field_start(i);
    if i < PERCENT_FIELDS {
        if is_placeholder(b[s]) && is_placeholder(b[s + 1]) {
            Some(MAX_PERCENT)
        } else if is_digit(b[s]) && is_digit(b[s + 1]) {
            Some(((b[s] - 48) * 10 + (b[s + 1] - 48)) as u32)
        } else {
            None
        }
    } else {
        if is_placeholder(b[s]) {
            Some(MAX_DECILE)
        } else if is_digit(b[s]) {
            Some((b[s] - 48) as u32)
        } else {
            None
        }
    }
}

/// Decoding of field `i` alone.
pub open spec fn decode_field(b: Seq<u8>, i: int) -> Result<u32, FilenameError> {
    if field_start(i) + field_width(i) > b.len() {
        Err(FilenameError::TooShort { field: i as usize })
    } else {
        match field_value(b, i) {
            Some(v) => Ok(v),
            None => Err(FilenameError::BadDigits { field: i as usize }),
        }
    }
}

/// Decoding of the first `n` fields, in order; the first failing field gives the error.
pub open spec fn decode_fields(b: Seq<u8>, n: int) -> Result<Seq<u32>, FilenameError>
    decreases n,
{
    if n <= 0 {
        Ok(seq![])
    } else {
        match decode_fields(b, n - 1) {
            Err(e) => Err(e),
            Ok(prefix) => match decode_field(b, n - 1) {
                Ok(v) => Ok(prefix.push(v)),
                Err(e) => Err(e),
            },
        }
    }
}

/// A name without the leading marker `1` is in the legacy format.
pub open spec fn is_legacy(b: Seq<u8>) -> bool {
    !(b.len() > 0 && b[0] == 49)
}

/// `lo` and `lo + 1` bracket `target` in `table`: the lower one is the first
/// index or below the target, the upper one the last index or at least the target.
pub open spec fn is_bracket(table: Seq<u32>, target: int, lo: int) -> bool {
    &&& 0 <= lo
    &&& lo + 1 < table.len()
    &&& (lo == 0 || table[lo] < target)
    &&& (lo + 1 == table.len() - 1 || table[lo + 1] >= target)
}

/// Largest index in `1..=i` whose entry lies below `target`, or 0.
pub open spec fn last_below(table: Seq<u32>, target: int, i: int) -> int
    decreases i,
{
    if i <= 0 {
        0
    } else if table[i] < target {
        i
    } else {
        last_below(table, target, i - 1)
    }
}

/// Lower index of the bracket around `target`.
pub open spec fn bracket_low(table: Seq<u32>, target: int) -> int {
    last_below(table, target, table.len() - 2)
}

/// Of the two bracketing indices, the one whose entry is closer to `target`;
/// a tie goes to the lower one.
pub open spec fn nearest_level(table: Seq<u32>, target: int) -> int {
    let lo = bracket_low(table, target);
    if target - table[lo] <= table[lo + 1] - target {
        lo
    } else {
        lo + 1
    }
}

/// Legacy pitch and decay fields, brought to the level of the current scheme whose
/// coefficient is nearest to the one the legacy scheme gave.
pub open spec fn requantize_legacy(t: EngineTables, p: Seq<u32>) -> Seq<u32> {
    let pitch = t.pitch_table();
    p.update(2, nearest_level(pitch, legacy_pitch_step(p[2] as int)) as u32).update(
        3,
        nearest_level(t.decay, t.legacy_decay[p[3] as int] as int) as u32,
    ).update(4, nearest_level(pitch, legacy_pitch_step(p[4] as int)) as u32).update(
        5,
        nearest_level(t.decay, t.legacy_decay[p[5] as int] as int) as u32,
    ).update(7, nearest_level(t.decay, t.legacy_decay[p[7] as int] as int) as u32)
}

/// The parameter vector that a name decodes to.
pub open spec fn decode_filename(t: EngineTables, b: Seq<u8>) -> Result<Seq<u32>, FilenameError> {
    match decode_fields(b, PARAMETER_COUNT as int) {
        Err(e) => Err(e),
        Ok(p) => if is_legacy(b) {
            Ok(requantize_legacy(t, p))
        } else {
            Ok(p)
        },
    }
}


/// The one-character text of decimal digit `d`.
fn digit_text(d: u32) -> (r: &'static str)
    requires
        d <= 9,
    ensures
        r@ == seq![digit_char(d as int)],
{
    proof {
        reveal_strlit("0");
        reveal_strlit("1");
        reveal_strlit("2");
        reveal_strlit("3");
        reveal_strlit("4");
        reveal_strlit("5");
        reveal_strlit("6");
        reveal_strlit("7");
        reveal_strlit("8");
        reveal_strlit("9");
    }
    if d == 0 {
        "0"
    } else if d == 1 {
        "1"
    } else if d == 2 {
        "2"
    } else if d == 3 {
        "3"
    } else if d == 4 {
        "4"
    } else if d == 5 {
        "5"
    } else if d == 6 {
        "6"
    } else if d == 7 {
        "7"
    } else if d == 8 {
        "8"
    } else {
        "9"
    }
}

impl CinterEngine {
    /// Encodes a parameter vector as a name: the marker `1`, then two digits for
    /// each percentage and one for each decile, the largest level written `XX` or `X`.
    pub fn get_sample_filename(params: &[u32; PARAMETER_COUNT]) -> (r: String)
        requires
            levels_valid(params@),
        ensures
            r@ == filename_chars(params@),
    {
        proof {
            reveal_strlit("1");
        }
        let mut name = "1".to_owned();
        let mut i: usize = 0;
        while i < PARAMETER_COUNT
            invariant
                i <= PARAMETER_COUNT,
                levels_valid(params@),
                name@ == seq!['1'] + fields_chars(params@, i as int),
            decreases PARAMETER_COUNT - i,
        {
            let v = params[i];
            assert(v <= level_limit(i as int));
            let ghost before = name@;
            if i < PERCENT_FIELDS {
                if v == MAX_PERCENT {
                    proof {
                        reveal_strlit("XX");
                    }
                    name.append("XX");
                } else {
                    name.append(digit_text(v / 10));
                    name.append(digit_text(v % 10));
                    assert(seq![digit_char((v / 10) as int)] + seq![digit_char((v % 10) as int)] =~= seq![
                        digit_char((v / 10) as int),
                        digit_char((v % 10) as int),
                    ]);
                }
            } else {
                if v == MAX_DECILE {
                    proof {
                        reveal_strlit("X");
                    }
                    name.append("X");
                } else {
                    name.append(digit_text(v));
                }
            }
            assert(name@ =~= before + field_chars(i as int, v as int));
            assert(fields_chars(params@, i + 1) == fields_chars(params@, i as int) + field_chars(
                i as int,
                v as int,
            ));
            assert(name@ =~= seq!['1'] + fields_chars(params@, i + 1));
            i = i + 1;
        }
        name
    }
}


/// Facts about `last_below`: its index is 0 or below the target, and every
/// index above it up to `i` is at least the target.
proof fn lemma_last_below(table: Seq<u32>, target: int, i: int)
    requires
        i < table.len(),
    ensures
        0 <= last_below(table, target, i) <= if i < 0 { 0 } else { i },
        last_below(table, target, i) == 0 || table[last_below(table, target, i)] < target,
        forall|j: int| last_below(table, target, i) < j <= i && j >= 1 ==> table[j] >= target,
    decreases i,
{
    if i > 0 && table[i] >= target {
        lemma_last_below(table, target, i - 1);
    }
}

/// In a table that never decreases, the bracket around a target is unique.
proof fn lemma_bracket_unique(table: Seq<u32>, target: int, lo: int)
    requires
        table.len() >= 2,
        non_decreasing(table),
        is_bracket(table, target, lo),
    ensures
        lo == bracket_low(table, target),
{
    let n = table.len() as int;
    let l = bracket_low(table, target);
    lemma_last_below(table, target, n - 2);
    if lo > l {
        assert(table[lo] >= target);
    } else if lo < l {
        assert(table[lo + 1] >= target);
        assert(table[lo + 1] <= table[l]);
    }
}

/// Answer of one probe of the search: the entry lies below the target or not.
enum Side {
    Below,
    NotBelow,
}

/// Whether `table[i]` lies below `target`.
fn probe(table: &[u32], target: u32, i: usize) -> (r: Side)
    requires
        i < table@.len(),
    ensures
        r is Below <==> table@[i as int] < target,
{
    if table[i] < target {
        Side::Below
    } else {
        Side::NotBelow
    }
}

/// Relies on `binary_search::binary_search`: searching from the bounds `0` and
/// `last`, with `last >= 1`, it probes only indices strictly between the current
/// bounds and returns two adjacent indices; the lower one is `0` or an index the
/// probe called low, the upper one is `last` or an index the probe called high.
#[verifier::external_body]
fn search_bracket(table: &[u32], target: u32, last: usize) -> (r: (usize, usize))
    requires
        2 <= table@.len(),
        last == table@.len() - 1,
    ensures
        is_bracket(table@, target as int, r.0 as int),
        r.1 == r.0 + 1,
{
    let ((low, _), (high, _)) = binary_search(
        (0usize, ()),
        (last, ()),
        |i| match probe(table, target, i) {
            Side::Below => Direction::Low(()),
            Side::NotBelow => Direction::High(()),
        },
    );
    (low, high)
}

/// Re-quantizes a legacy coefficient: the level of `table` whose coefficient is
/// nearest to `target`, found by binary search; a tie goes to the lower level.
pub fn convert3to4(target: u32, table: &[u32]) -> (r: u32)
    requires
        table@.len() == LEVEL_COUNT,
        non_decreasing(table@),
    ensures
        r == nearest_level(table@, target as int),
        r <= MAX_PERCENT,
{
    let (low, high) = search_bracket(table, target, table.len() - 1);
    proof {
        lemma_bracket_unique(table@, target as int, low as int);
    }
    let lowval = table[low] as i64;
    let highval = table[high] as i64;
    let t = target as i64;
    if t - lowval <= highval - t {
        low as u32
    } else {
        high as u32
    }
}

/// Where a legacy coefficient equals the coefficient of some level of the current
/// scheme, re-quantization returns a level with exactly that coefficient; where
/// the coefficients strictly increase, that level itself.
pub proof fn lemma_legacy_exact(table: Seq<u32>, m: int)
    requires
        table.len() >= 2,
        non_decreasing(table),
        0 <= m < table.len(),
    ensures
        table[nearest_level(table, table[m] as int)] == table[m],
        (forall|i: int, j: int| 0 <= i < j < table.len() ==> table[i] < table[j])
            ==> nearest_level(table, table[m] as int) == m,
{
    let n = table.len() as int;
    let target = table[m] as int;
    let lo = bracket_low(table, target);
    lemma_last_below(table, target, n - 2);
    if lo >= 1 {
        assert(m > lo) by {
            if m <= lo {
                assert(table[m] <= table[lo]);
            }
        }
        if lo + 1 <= n - 2 {
            assert(table[lo + 1] >= target);
            assert(table[lo + 1] <= table[m]);
        }
    } else {
        if m >= 1 {
            assert(table[1] <= table[m]);
            if 1 <= n - 2 {
                assert(table[1] >= target);
            }
        } else {
            assert(table[0] <= table[1]);
        }
    }
}


/// Once a field fails, decoding more fields fails with the same error.
proof fn lemma_decode_error_persists(b: Seq<u8>, k: int, n: int)
    requires
        0 <= k <= n,
        decode_fields(b, k) is Err,
    ensures
        decode_fields(b, n) == decode_fields(b, k),
    decreases n - k,
{
    if n > k {
        lemma_decode_error_persists(b, k, n - 1);
    }
}

/// Decodes field `i` of a name.
fn parse_field(b: &[u8], i: usize) -> (r: Result<u32, FilenameError>)
    requires
        i < PARAMETER_COUNT,
    ensures
        r == decode_field(b@, i as int),
        r matches Ok(v) ==> v <= level_limit(i as int),
{
    if i < PERCENT_FIELDS {
        let start = 2 * i + 1;
        if start + 2 > b.len() {
            return Err(FilenameError::TooShort { field: i });
        }
        let c0 = b[start];
        let c1 = b[start + 1];
        if (c0 == 88 || c0 == 120) && (c1 == 88 || c1 == 120) {
            Ok(MAX_PERCENT)
        } else if 48 <= c0 && c0 <= 57 && 48 <= c1 && c1 <= 57 {
            Ok((c0 as u32 - 48) * 10 + (c1 as u32 - 48))
        } else {
            Err(FilenameError::BadDigits { field: i })
        }
    } else {
        let start = i + 9;
        if start + 1 > b.len() {
            return Err(FilenameError::TooShort { field: i });
        }
        let c = b[start];
        if c == 88 || c == 120 {
            Ok(MAX_DECILE)
        } else if 48 <= c && c <= 57 {
            Ok(c as u32 - 48)
        } else {
            Err(FilenameError::BadDigits { field: i })
        }
    }
}

impl CinterEngine {
    /// Decodes a name into a parameter vector. A name without the leading marker
    /// `1` is in the legacy format: its pitch and decay fields are re-quantized to
    /// the current scheme. Fails on the first field that the name is too short
    /// for or that holds neither digits nor the placeholder.
    pub fn parameters_from_sample_filename(&self, name: &str) -> (r: Result<
        [u32; PARAMETER_COUNT],
        FilenameError,
    >)
        ensures
            r matches Ok(p) ==> decode_filename(self@, name.spec_bytes()) == Ok::<
                Seq<u32>,
                FilenameError,
            >(p@),
            r matches Err(e) ==> decode_filename(self@, name.spec_bytes()) == Err::<
                Seq<u32>,
                FilenameError,
            >(e),
            r matches Ok(p) ==> levels_valid(p@),
    {
        self.parameters_from_bytes(name.as_bytes())
    }

    /// Decodes the bytes of a name into a parameter vector (see
    /// `parameters_from_sample_filename`).
    pub fn parameters_from_bytes(&self, bytes: &[u8]) -> (r: Result<
        [u32; PARAMETER_COUNT],
        FilenameError,
    >)
        ensures
            r matches Ok(p) ==> decode_filename(self@, bytes@) == Ok::<Seq<u32>, FilenameError>(
                p@,
            ),
            r matches Err(e) ==> decode_filename(self@, bytes@) == Err::<Seq<u32>, FilenameError>(
                e,
            ),
            r matches Ok(p) ==> levels_valid(p@),
    {
        let ghost b = bytes@;
        let legacy = !(bytes.len() > 0 && bytes[0] == 49);
        let mut params = [0u32; PARAMETER_COUNT];
        let mut i: usize = 0;
        assert(params@.take(0) =~= Seq::<u32>::empty());
        while i < PARAMETER_COUNT
            invariant
                i <= PARAMETER_COUNT,
                b == bytes@,
                params@.len() == PARAMETER_COUNT,
                decode_fields(b, i as int) == Ok::<Seq<u32>, FilenameError>(
                    params@.take(i as int),
                ),
                forall|j: int| 0 <= j < i ==> #[trigger] params@[j] <= level_limit(j),
            decreases PARAMETER_COUNT - i,
        {
            let field = parse_field(bytes, i);
            assert(decode_fields(b, i + 1) == match decode_field(b, i as int) {
                Ok(v) => Ok(params@.take(i as int).push(v)),
                Err(e) => Err::<Seq<u32>, FilenameError>(e),
            });
            let ghost before = params@;
            match field {
                Ok(v) => {
                    params[i] = v;
                    assert(params@.take(i + 1) =~= before.take(i as int).push(v));
                },
                Err(e) => {
                    proof {
                        assert(decode_fields(b, i + 1) == Err::<Seq<u32>, FilenameError>(e));
                        lemma_decode_error_persists(b, i + 1, PARAMETER_COUNT as int);
                        assert(decode_fields(b, PARAMETER_COUNT as int) == Err::<
                            Seq<u32>,
                            FilenameError,
                        >(e));
                    }
                    return Err(e);
                },
            }
            i = i + 1;
        }
        assert(params@.take(PARAMETER_COUNT as int) =~= params@);
        if legacy {
            let ghost p = params@;
            let pitch = self.pitch_levels();
            let decay = self.decay_levels();
            params[2] = convert3to4(pitchfun3(params[2]), pitch);
            params[3] = convert3to4(self.decayfun3(params[3]), decay);
            params[4] = convert3to4(pitchfun3(params[4]), pitch);
            params[5] = convert3to4(self.decayfun3(params[5]), decay);
            params[7] = convert3to4(self.decayfun3(params[7]), decay);
            assert(params@ =~= requantize_legacy(self@, p));
        }
        Ok(params)
    }
}


/// The first `n` fields take `field_start(n) - 1` characters, each field at its position.
proof fn lemma_fields_layout(levels: Seq<u32>, n: int)
    requires
        levels_valid(levels),
        0 <= n <= PARAMETER_COUNT,
    ensures
        fields_chars(levels, n).len() == field_start(n) - 1,
        forall|i: int, j: int|
            0 <= i < n && 0 <= j < field_width(i) ==> fields_chars(levels, n)[field_start(i) - 1 + j]
                == #[trigger] field_chars(i, levels[i] as int)[j],
    decreases n,
{
    if n > 0 {
        lemma_fields_layout(levels, n - 1);
        let prev = fields_chars(levels, n - 1);
        let last = field_chars(n - 1, levels[n - 1] as int);
        assert(fields_chars(levels, n) == prev + last);
        assert forall|i: int, j: int|
            0 <= i < n && 0 <= j < field_width(i) implies fields_chars(levels, n)[field_start(i) - 1
            + j] == #[trigger] field_chars(i, levels[i] as int)[j] by {
            if i < n - 1 {
                assert(field_start(i) - 1 + j < prev.len());
            }
        }
    }
}

/// Encoding a parameter vector and decoding the name gives the vector back.
pub proof fn lemma_round_trip(t: EngineTables, levels: Seq<u32>, name: &str)
    requires
        levels_valid(levels),
        name@ == filename_chars(levels),
    ensures
        decode_filename(t, name.spec_bytes()) == Ok::<Seq<u32>, FilenameError>(levels),
{
    let chars = name@;
    lemma_fields_layout(levels, PARAMETER_COUNT as int);
    let body = fields_chars(levels, PARAMETER_COUNT as int);
    assert forall|k: int| 0 <= k < chars.len() implies '\0' <= #[trigger] chars[k] <= '\u{7f}' by {
        if k > 0 {
            let i = choose_field(k - 1);
            let j = k - 1 - (field_start(i) - 1);
            assert(body[field_start(i) - 1 + j] == field_chars(i, levels[i] as int)[j]);
            assert(levels[i] <= level_limit(i));
        }
    }
    assert(is_ascii_chars(chars));
    is_ascii_chars_encode_utf8(chars);
    let b = name.spec_bytes();
    assert forall|i: int| 0 <= i < PARAMETER_COUNT implies #[trigger] decode_field(b, i) == Ok::<
        u32,
        FilenameError,
    >(levels[i]) by {
        let v = levels[i] as int;
        assert(v <= level_limit(i));
        let s = field_start(i);
        assert(b[s] == chars[s] as u8);
        assert(chars[s] == body[field_start(i) - 1 + 0]);
        assert(body[field_start(i) - 1 + 0] == field_chars(i, v)[0]);
        if i < PERCENT_FIELDS {
            assert(b[s + 1] == chars[s + 1] as u8);
            assert(chars[s + 1] == body[field_start(i) - 1 + 1]);
            assert(body[field_start(i) - 1 + 1] == field_chars(i, v)[1]);
            if v != MAX_PERCENT {
                assert(((48 + v / 10) as u8) as char as u8 == (48 + v / 10) as u8);
                assert(((48 + v % 10) as u8) as char as u8 == (48 + v % 10) as u8);
                assert((v / 10) * 10 + v % 10 == v);
            }
        } else {
            if v != MAX_DECILE {
                assert(((48 + v) as u8) as char as u8 == (48 + v) as u8);
            }
        }
    }
    lemma_decode_all(b, levels, PARAMETER_COUNT as int);
    assert(levels.take(PARAMETER_COUNT as int) =~= levels);
}

/// The field whose characters hold position `p` of the fields' text.
spec fn choose_field(p: int) -> int {
    if p < 16 {
        p / 2
    } else {
        p - 8
    }
}

/// Where every field decodes to the level given, the first `n` fields decode to
/// the first `n` levels.
proof fn lemma_decode_all(b: Seq<u8>, levels: Seq<u32>, n: int)
    requires
        0 <= n <= PARAMETER_COUNT,
        levels.len() == PARAMETER_COUNT,
        forall|i: int|
            0 <= i < PARAMETER_COUNT ==> #[trigger] decode_field(b, i) == Ok::<u32, FilenameError>(
                levels[i],
            ),
    ensures
        decode_fields(b, n) == Ok::<Seq<u32>, FilenameError>(levels.take(n)),
    decreases n,
{
    if n > 0 {
        lemma_decode_all(b, levels, n - 1);
        assert(decode_field(b, n - 1) == Ok::<u32, FilenameError>(levels[n - 1]));
        assert(levels.take(n) =~= levels.take(n - 1).push(levels[n - 1]));
    } else {
        assert(levels.take(0) =~= Seq::<u32>::empty());
    }
}

} // verus!
