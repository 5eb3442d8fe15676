//! Command line settings of the compositor demo program.

use vstd::prelude::*;

use vstd::string::StringSliceAdditionalSpecFns;
use vstd::utf8::{encode_scalar, encode_utf8};
use vstd::string::StringExecFns;

use crate::text::{decimal, digit_char, digits, push_unsigned};

use crate::layout::Size;
use vstd::arithmetic::div_mod::{lemma_fundamental_div_mod, lemma_fundamental_div_mod_converse, lemma_mod_pos_bound};

verus! {

/// The byte that separates width and height in a resolution such as `1920x1080`.
pub const RESOLUTION_SEPARATOR: u8 = 0x78;

/// The parts of `b` between separator bytes (at least one, possibly empty).
pub open spec fn split_parts(b: Seq<u8>) -> Seq<Seq<u8>>
    decreases b.len(),
{
    if b.len() == 0 {
        seq![Seq::empty()]
    } else {
        let init = split_parts(b.drop_last());
        if b.last() == RESOLUTION_SEPARATOR {
            init.push(Seq::empty())
        } else {
            init.update(init.len() - 1, init.last().push(b.last()))
        }
    }
}

/// Whether `c` is an ASCII decimal digit.
pub open spec fn is_digit(c: u8) -> bool {
    0x30 <= c <= 0x39
}

/// The value of a sequence of decimal digits.
pub open spec fn digits_value(d: Seq<u8>) -> nat
    decreases d.len(),
{
    if d.len() == 0 {
        0
    } else {
        digits_value(d.drop_last()) * 10 + (d.last() - 0x30) as nat
    }
}

/// `p` without a leading `+`.
pub open spec fn unsigned_part(p: Seq<u8>) -> Seq<u8> {
    if p.len() > 0 && p[0] == 0x2B {
        p.drop_first()
    } else {
        p
    }
}

/// Whether `d` consists of decimal digits only.
pub open spec fn all_digits(d: Seq<u8>) -> bool {
    forall|i: int| 0 <= i < d.len() ==> is_digit(#[trigger] d[i])
}

/// The number that `p` spells in decimal, with an optional leading `+`, if it fits a
/// `usize`.
pub open spec fn parse_usize_spec(p: Seq<u8>) -> Option<usize> {
    let d = unsigned_part(p);
    if d.len() > 0 && all_digits(d) && digits_value(d) <= usize::MAX {
        Some(digits_value(d) as usize)
    } else {
        None
    }
}

/// The resolution that `b` spells, such as `1920x1080`: every part between separators
/// is a number, and there are at least two parts; the first two are width and height.
pub open spec fn parse_resolution_spec(b: Seq<u8>) -> Option<Size> {
    let parts = split_parts(b);
    if parts.len() >= 2 && forall|i: int| 0 <= i < parts.len() ==> (#[trigger] parse_usize_spec(parts[i])) is Some {
        Some(Size { width: parse_usize_spec(parts[0])->0, height: parse_usize_spec(parts[1])->0 })
    } else {
        None
    }
}

/// Extending a sequence of digits by a digit never makes its value smaller.
proof fn lemma_digits_value_grows(d: Seq<u8>, k: int)
    requires
        0 <= k <= d.len(),
        forall|i: int| 0 <= i < d.len() ==> is_digit(#[trigger] d[i]),
    ensures
        digits_value(d.take(k)) <= digits_value(d),
    decreases d.len() - k,
{
    if k < d.len() {
        lemma_digits_value_grows(d, k + 1);
        assert(d.take(k + 1).drop_last() =~= d.take(k));
    } else {
        assert(d.take(k) =~= d);
    }
}

/// The number that `p` spells in decimal, with an optional leading `+`, if it fits a
/// `usize`.
pub fn parse_usize(p: &[u8]) -> (r: Option<usize>)
    ensures
        r == parse_usize_spec(p@),
{
    let start: usize = if p.len() > 0 && p[0] == 0x2B { 1 } else { 0 };
    let ghost d = unsigned_part(p@);
    assert(d =~= p@.skip(start as int));
    if start >= p.len() {
        return None;
    }
    let mut value: usize = 0;
    let mut k: usize = start;
    while k < p.len()
        invariant
            start <= k <= p@.len(),
            start == (if p@.len() > 0 && p@[0] == 0x2B { 1usize } else { 0usize }),
            d == unsigned_part(p@),
            d =~= p@.skip(start as int),
            forall|i: int| 0 <= i < k - start ==> is_digit(#[trigger] d[i]),
            value as nat == digits_value(d.take(k - start)),
        decreases p@.len() - k,
    {
        let c = p[k];
        if c < 0x30 || c > 0x39 {
            assert(!is_digit(d[k - start]));
            assert(!all_digits(d));
            assert(parse_usize_spec(p@) is None);
            return None;
        }
        assert(d.take(k + 1 - start).drop_last() =~= d.take(k - start));
        assert(d.take(k + 1 - start).last() == c);
        let digit = (c - 0x30) as usize;
        let next = match value.checked_mul(10) {
            Some(v) => v.checked_add(digit),
            None => None,
        };
        match next {
            Some(v) => {
                value = v;
            },
            None => {
                proof {
                    assert(digits_value(d.take(k + 1 - start)) == value * 10 + digit);
                    assert(digits_value(d.take(k + 1 - start)) > usize::MAX);
                    if all_digits(d) {
                        lemma_digits_value_grows(d, k + 1 - start);
                        assert(digits_value(d) > usize::MAX);
                    }
                    assert(parse_usize_spec(p@) is None);
                }
                return None;
            },
        }
        k = k + 1;
    }
    assert(d.take(k - start) =~= d);
    Some(value)
}

/// The resolution that `s` spells, such as `1920x1080`: every part between `x`
/// separators is a number, and there are at least two parts; the first two are width and
/// height.
pub fn parse_resolution_bytes(b: &[u8]) -> (r: Option<Size>)
    ensures
        r == parse_resolution_spec(b@),
{
    let mut values: Vec<usize> = Vec::new();
    let mut current: Vec<u8> = Vec::new();
    let mut i: usize = 0;
    assert(b@.take(0) =~= Seq::<u8>::empty());
    while i < b.len()
        invariant
            i <= b@.len(),
            split_parts(b@.take(i as int)).len() == values@.len() + 1,
            current@ == split_parts(b@.take(i as int)).last(),
            forall|j: int| 0 <= j < values@.len() ==> parse_usize_spec(#[trigger] split_parts(b@.take(i as int))[j]) == Some(values@[j]),
        decreases b@.len() - i,
    {
        let ghost before = split_parts(b@.take(i as int));
        assert(b@.take(i + 1).drop_last() =~= b@.take(i as int));
        if b[i] == RESOLUTION_SEPARATOR {
            match parse_usize(current.as_slice()) {
                Some(v) => {
                    values.push(v);
                    current.clear();
                    proof {
                        let after = split_parts(b@.take(i + 1));
                        assert(after == before.push(Seq::empty()));
                        assert forall|j: int| 0 <= j < values@.len() implies parse_usize_spec(#[trigger] after[j]) == Some(values@[j]) by {
                            if j < values@.len() - 1 {
                                assert(after[j] == before[j]);
                            }
                        }
                    }
                },
                None => {
                    proof {
                        let all = split_parts(b@);
                        lemma_split_parts_prefix(b@, i as int);
                        assert(all[values@.len() as int] == current@);
                    }
                    return None;
                },
            }
        } else {
            current.push(b[i]);
            proof {
                let after = split_parts(b@.take(i + 1));
                assert(after == before.update(before.len() - 1, before.last().push(b@[i as int])));
                assert forall|j: int| 0 <= j < values@.len() implies parse_usize_spec(#[trigger] after[j]) == Some(values@[j]) by {
                    assert(after[j] == before[j]);
                }
            }
        }
        i = i + 1;
    }
    assert(b@.take(i as int) =~= b@);
    match parse_usize(current.as_slice()) {
        None => None,
        Some(v) => {
            values.push(v);
            if values.len() >= 2 {
                proof {
                    let parts = split_parts(b@);
                    assert forall|j: int| 0 <= j < parts.len() implies (#[trigger] parse_usize_spec(parts[j])) is Some by {
                        if j < parts.len() - 1 {
                            assert(parse_usize_spec(parts[j]) == Some(values@[j]));
                        }
                    }
                }
                Some(Size { width: values[0], height: values[1] })
            } else {
                None
            }
        },
    }
}

/// The parts of a prefix that ends before a separator are the first parts of the whole,
/// except that the last part of the prefix may grow.
proof fn lemma_split_parts_prefix(b: Seq<u8>, i: int)
    requires
        0 <= i < b.len(),
        b[i] == RESOLUTION_SEPARATOR,
    ensures
        ({
            let pre = split_parts(b.take(i));
            let all = split_parts(b);
            &&& all.len() > pre.len()
            &&& forall|j: int| 0 <= j < pre.len() ==> #[trigger] all[j] == pre[j]
        }),
    decreases b.len() - i,
{
    lemma_split_parts_grow(b, i + 1);
    assert(b.take(i + 1).drop_last() =~= b.take(i));
    let pre = split_parts(b.take(i));
    let mid = split_parts(b.take(i + 1));
    assert(mid == pre.push(Seq::empty()));
    let all = split_parts(b);
    assert forall|j: int| 0 <= j < pre.len() implies #[trigger] all[j] == pre[j] by {
        assert(mid[j] == pre[j]);
    }
}

/// Splitting a longer prefix keeps all parts but the last of the shorter prefix.
proof fn lemma_split_parts_grow(b: Seq<u8>, k: int)
    requires
        0 <= k <= b.len(),
    ensures
        ({
            let pre = split_parts(b.take(k));
            let all = split_parts(b);
            &&& all.len() >= pre.len()
            &&& forall|j: int| 0 <= j < pre.len() - 1 ==> #[trigger] all[j] == pre[j]
        }),
    decreases b.len() - k,
{
    if k == b.len() {
        assert(b.take(k) =~= b);
    } else {
        lemma_split_parts_grow(b, k + 1);
        assert(b.take(k + 1).drop_last() =~= b.take(k));
        let pre = split_parts(b.take(k));
        let mid = split_parts(b.take(k + 1));
        assert forall|j: int| 0 <= j < pre.len() - 1 implies mid[j] == pre[j] by {}
    }
}

/// The resolution that `s` spells, such as `1920x1080` (see [`parse_resolution_bytes`]).
pub fn parse_resolution(s: &str) -> (r: Option<Size>)
    ensures
        r == parse_resolution_spec(encode_utf8(s@)),
{
    let b = s.as_bytes();
    assert(b@ == s.spec_bytes());
    parse_resolution_bytes(b)
}

/// The layouts the demo program offers.
#[derive(Debug, Clone, Copy, PartialEq, Eq, Structural)]
pub enum LayoutChoice {
    /// The first visible stream large, the others beside and below it.
    Speaker,
    /// All visible streams in a grid.
    Grid,
}

/// Settings of the demo program.
#[derive(Debug)]
pub struct Arguments {
    /// Number of visible viewers (additionally to the speaker).
    pub participants: usize,
    /// Maximum number of visible participants.
    pub visibles: usize,
    /// Width and height (e.g. `1920x1080`) of the composite output.
    pub resolution: String,
    /// Just use video display instead of recording.
    pub display: bool,
    /// Generate DOT files of the pipeline.
    pub dot: bool,
    /// The layout.
    pub layout: LayoutChoice,
    /// Use test sources.
    pub test: bool,
}

impl Arguments {
    /// The output resolution the settings spell.
    pub fn output_resolution(&self) -> (r: Option<Size>)
        ensures
            r == parse_resolution_spec(encode_utf8(self.resolution@)),
    {
        parse_resolution(self.resolution.as_str())
    }

    /// Whether no more participants may be visible than take part: the mixer of the demo
    /// refuses a maximum of visibles above the number of participants.
    pub fn visibles_within_participants(&self) -> (b: bool)
        ensures
            b == (self.visibles <= self.participants),
    {
        self.visibles <= self.participants
    }
}

/// The display name of the demo's participant number `n`.
pub fn participant_name(n: usize) -> (s: String)
    ensures
        s@ == "Participant "@ + decimal(n as int),
{
    let mut s = String::from_str("Participant ");
    push_unsigned(&mut s, n as u64);
    s
}

/// The next number of visible participants of the demo, and the direction it moves in: it
/// counts up to the maximum, then down to zero, then up again.
pub fn next_visible_count(count: isize, step: isize, max_visibles: usize) -> (r: (isize, isize))
    requires
        step == 1 || step == -1,
        count < isize::MAX,
        count > isize::MIN,
    ensures
        r.1 == (if count >= max_visibles as isize { -1isize } else if count == 0 { 1isize } else { step }),
        r.0 == count + r.1,
{
    let step = if count >= max_visibles as isize {
        -1
    } else if count == 0 {
        1
    } else {
        step
    };
    (count + step, step)
}

/// Counting the visible participants of the demo up and down stays between zero and the
/// maximum (of at least one).
pub proof fn law_visible_count_stays_in_range(count: isize, step: isize, max_visibles: usize)
    requires
        1 <= max_visibles <= isize::MAX,
        0 <= count <= max_visibles,
        step == 1 || step == -1,
    ensures
        ({
            let next_step = if count >= max_visibles as isize { -1isize } else if count == 0 { 1isize } else { step };
            0 <= count + next_step <= max_visibles
        }),
{
}

/// The demo's count of visible participants and its direction after `k` steps of
/// [`next_visible_count`], starting at zero and counting up.
pub open spec fn visible_counts(max_visibles: int, k: nat) -> (int, int)
    decreases k,
{
    if k == 0 {
        (0, 1)
    } else {
        let (count, step) = visible_counts(max_visibles, (k - 1) as nat);
        let next_step = if count >= max_visibles { -1int } else if count == 0 { 1int } else { step };
        (count + next_step, next_step)
    }
}

/// Counting the visible participants of the demo up and down, step after step, never
/// leaves the range from zero to the maximum (of at least one).
pub proof fn law_visible_counts_stay_in_range(max_visibles: nat, k: nat)
    requires
        max_visibles >= 1,
    ensures
        0 <= visible_counts(max_visibles as int, k).0 <= max_visibles,
        visible_counts(max_visibles as int, k).1 == 1 || visible_counts(max_visibles as int, k).1 == -1,
    decreases k,
{
    if k > 0 {
        law_visible_counts_stay_in_range(max_visibles, (k - 1) as nat);
    }
}

/// The demo's count at the place `r` of a period of `2·max` steps: up from zero to `max`
/// in the first half, down again in the second.
pub open spec fn triangle(max_visibles: int, r: int) -> int {
    if r <= max_visibles {
        r
    } else {
        2 * max_visibles - r
    }
}

/// The place of step `k` within the next step's period, from the place of step `k - 1`.
proof fn lemma_next_place(k: int, m: int)
    requires
        k >= 1,
        m >= 1,
    ensures
        0 <= (k - 1) % m < m,
        k % m == (if (k - 1) % m + 1 < m { (k - 1) % m + 1 } else { 0 }),
{
    lemma_fundamental_div_mod(k - 1, m);
    lemma_mod_pos_bound(k - 1, m);
    let q = (k - 1) / m;
    let r0 = (k - 1) % m;
    if r0 + 1 < m {
        lemma_fundamental_div_mod_converse(k, m, q, r0 + 1);
    } else {
        assert(k == (q + 1) * m + 0) by (nonlinear_arith)
            requires
                k - 1 == m * q + r0,
                r0 + 1 == m,
        ;
        lemma_fundamental_div_mod_converse(k, m, q + 1, 0);
    }
}

/// The demo counts the visible participants up from zero to the maximum, down to zero
/// again, and so on, with a period of twice the maximum; the direction is up on the way up
/// and down on the way down. With a maximum of zero it counts down forever.
pub proof fn law_visible_counts_run_up_and_down(max_visibles: nat, k: nat)
    ensures
        max_visibles >= 1 ==> ({
            let r = (k as int) % (2 * max_visibles as int);
            &&& visible_counts(max_visibles as int, k).0 == triangle(max_visibles as int, r)
            &&& visible_counts(max_visibles as int, k).1 == (if k == 0 || (1 <= r && r <= max_visibles) { 1int } else { -1int })
        }),
        max_visibles == 0 ==> visible_counts(0, k) == (-(k as int), if k == 0 { 1int } else { -1int }),
    decreases k,
{
    let v = max_visibles as int;
    let m = 2 * v;
    if k == 0 {
        if max_visibles >= 1 {
            assert((0int) % m == 0) by {
                lemma_fundamental_div_mod_converse(0, m, 0, 0);
            }
        }
    } else {
        law_visible_counts_run_up_and_down(max_visibles, (k - 1) as nat);
        if max_visibles >= 1 {
            lemma_next_place(k as int, m);
        }
    }
}

/// The ASCII bytes of the decimal digits of `n`.
spec fn digit_bytes(n: nat) -> Seq<u8>
    decreases n,
{
    if n < 10 {
        seq![(n + 0x30) as u8]
    } else {
        digit_bytes(n / 10).push(((n % 10) + 0x30) as u8)
    }
}

/// UTF-8 encodes a concatenation part by part.
proof fn lemma_encode_utf8_concat(a: Seq<char>, b: Seq<char>)
    ensures
        encode_utf8(a + b) == encode_utf8(a) + encode_utf8(b),
    decreases a.len(),
{
    if a.len() == 0 {
        assert(a + b =~= b);
        assert(encode_utf8(a) + encode_utf8(b) =~= encode_utf8(b));
    } else {
        lemma_encode_utf8_concat(a.drop_first(), b);
        assert((a + b).drop_first() =~= a.drop_first() + b);
        assert((a + b)[0] == a[0]);
        assert(encode_utf8(a + b) =~= encode_utf8(a) + encode_utf8(b));
    }
}

/// An ASCII character is encoded as its code.
proof fn lemma_encode_ascii(c: char, v: u8)
    requires
        c as u32 == v,
        v < 0x80,
    ensures
        encode_utf8(seq![c]) == seq![v],
{
    let u = c as u32;
    assert(((u & 0x7F) as u8) == v) by (bit_vector)
        requires
            u == v as u32,
            v < 0x80,
    ;
    assert(encode_scalar(u) =~= seq![v]);
    assert(seq![c].drop_first() =~= Seq::<char>::empty());
    assert(encode_utf8(Seq::<char>::empty()) =~= Seq::<u8>::empty());
    assert(encode_utf8(seq![c]) =~= seq![v]);
}

/// The decimal digits of `n` are encoded as their ASCII bytes.
proof fn lemma_encode_digits(n: nat)
    ensures
        encode_utf8(digits(n, 10)) == digit_bytes(n),
    decreases n,
{
    if n < 10 {
        lemma_encode_ascii(digit_char(n), (n + 0x30) as u8);
    } else {
        let d = (n % 10) as nat;
        lemma_encode_digits(n / 10);
        lemma_encode_ascii(digit_char(d), (d + 0x30) as u8);
        let init = digits(n / 10, 10);
        assert(digits(n, 10) =~= init + seq![digit_char(d)]);
        lemma_encode_utf8_concat(init, seq![digit_char(d)]);
        assert(digit_bytes(n) =~= digit_bytes(n / 10) + seq![(d + 0x30) as u8]);
    }
}

/// The ASCII digits of `n` are digits only, at least one, and their value is `n`.
proof fn lemma_digit_bytes(n: nat)
    ensures
        digit_bytes(n).len() > 0,
        all_digits(digit_bytes(n)),
        digits_value(digit_bytes(n)) == n,
    decreases n,
{
    if n < 10 {
        assert(((n + 0x30) as u8) as int == n + 0x30);
        assert(digit_bytes(n).drop_last() =~= Seq::<u8>::empty());
        assert(digits_value(Seq::<u8>::empty()) == 0);
        assert(digits_value(digit_bytes(n)) == digits_value(Seq::<u8>::empty()) * 10 + (n + 0x30 - 0x30));
    } else {
        lemma_digit_bytes(n / 10);
        let b = digit_bytes(n);
        let d = (n % 10) as nat;
        assert(((d + 0x30) as u8) as int == d + 0x30);
        assert(b.drop_last() =~= digit_bytes(n / 10));
        assert(b.last() == (d + 0x30) as u8);
        assert(digits_value(b) == digits_value(digit_bytes(n / 10)) * 10 + d);
        assert((n / 10) * 10 + d == n);
        assert(forall|i: int| 0 <= i < b.len() - 1 ==> b[i] == digit_bytes(n / 10)[i]);
    }
}

/// Splitting never gives fewer than one part.
proof fn lemma_split_parts_nonempty(b: Seq<u8>)
    ensures
        split_parts(b).len() >= 1,
    decreases b.len(),
{
    if b.len() > 0 {
        lemma_split_parts_nonempty(b.drop_last());
    }
}

/// Bytes without a separator extend the last part.
proof fn lemma_split_parts_extend(a: Seq<u8>, c: Seq<u8>)
    requires
        forall|i: int| 0 <= i < c.len() ==> c[i] != RESOLUTION_SEPARATOR,
    ensures
        ({
            let sa = split_parts(a);
            split_parts(a + c) == sa.update(sa.len() - 1, sa.last() + c)
        }),
    decreases c.len(),
{
    let sa = split_parts(a);
    lemma_split_parts_nonempty(a);
    if c.len() == 0 {
        assert(a + c =~= a);
        assert(sa.update(sa.len() - 1, sa.last() + c) =~= sa);
    } else {
        let init = c.drop_last();
        lemma_split_parts_extend(a, init);
        assert((a + c).drop_last() =~= a + init);
        assert((a + c).last() == c.last());
        let prev = split_parts(a + init);
        assert(prev.len() == sa.len());
        assert(prev.last() == sa.last() + init);
        assert(split_parts(a + c) == prev.update(prev.len() - 1, prev.last().push(c.last())));
        assert(prev.last().push(c.last()) =~= sa.last() + c);
        assert(split_parts(a + c) =~= sa.update(sa.len() - 1, sa.last() + c));
    }
}

/// The text of a size, as [`crate::Size::to_string`] writes it, is read back as that size.
pub proof fn law_resolution_text_round_trip(size: Size)
    ensures
        parse_resolution_spec(encode_utf8(decimal(size.width as int) + seq!['x'] + decimal(size.height as int)))
            == Some(size),
{
    let w = size.width as nat;
    let h = size.height as nat;
    let dw = digits(w, 10);
    let dh = digits(h, 10);
    assert(decimal(size.width as int) == dw);
    assert(decimal(size.height as int) == dh);
    lemma_encode_utf8_concat(dw + seq!['x'], dh);
    lemma_encode_utf8_concat(dw, seq!['x']);
    lemma_encode_ascii('x', RESOLUTION_SEPARATOR);
    lemma_encode_digits(w);
    lemma_encode_digits(h);
    let bw = digit_bytes(w);
    let bh = digit_bytes(h);
    let b = encode_utf8(dw + seq!['x'] + dh);
    assert(b == bw + seq![RESOLUTION_SEPARATOR] + bh);
    lemma_digit_bytes(w);
    lemma_digit_bytes(h);
    assert(forall|i: int| 0 <= i < bw.len() ==> is_digit(#[trigger] bw[i]));
    assert(forall|i: int| 0 <= i < bh.len() ==> is_digit(#[trigger] bh[i]));
    lemma_split_parts_extend(Seq::<u8>::empty(), bw);
    assert(Seq::<u8>::empty() + bw =~= bw);
    assert(split_parts(Seq::<u8>::empty()) =~= seq![Seq::<u8>::empty()]);
    assert(split_parts(bw) =~= seq![bw]);
    let bx = bw + seq![RESOLUTION_SEPARATOR];
    assert(bx.drop_last() =~= bw);
    assert(split_parts(bx) =~= seq![bw, Seq::<u8>::empty()]);
    lemma_split_parts_extend(bx, bh);
    assert(split_parts(bx + bh) =~= seq![bw, bh]);
    assert(bx + bh =~= b);
    assert(unsigned_part(bw) == bw);
    assert(unsigned_part(bh) == bh);
    assert(parse_usize_spec(bw) == Some(size.width));
    assert(parse_usize_spec(bh) == Some(size.height));
    let parts = split_parts(b);
    assert(forall|i: int| 0 <= i < parts.len() ==> (#[trigger] parse_usize_spec(parts[i])) is Some) by {
        assert forall|i: int| 0 <= i < parts.len() implies (#[trigger] parse_usize_spec(parts[i])) is Some by {
            if i == 0 {
                assert(parts[i] == bw);
            } else {
                assert(parts[i] == bh);
            }
        }
    }
}

} // verus!
