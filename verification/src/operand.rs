//! The bounded operand buffer: one number as typed or displayed, stored as a
//! digit sequence, an optional decimal-point position and a sign, together
//! with its conversions to and from the decimal value model.

use crate::dec::{
    lemma_pow10_28, lemma_pow10_mono, lemma_pow10_pos, pow10, pow10_u128, Dec, BUFFER_MAX_NUMBER,
};
use crate::error::CommandError;
use vstd::arithmetic::div_mod::{
    lemma_div_by_multiple, lemma_fundamental_div_mod, lemma_fundamental_div_mod_converse,
};
use vstd::prelude::*;

verus! {

/// The display capacity: how many digits the buffer accepts from typing and
/// how many significant digit positions the display shows.
pub const BUFFER_SIZE: usize = 16;

/// The internal capacity: a computed value keeps a few more digits than the
/// display shows, so precision is lost only at display time.
pub const BUFFER_SIZE_INTERN: usize = 29;

pub open spec fn is_digit_char(c: char) -> bool {
    '0' <= c && c <= '9'
}

pub open spec fn digit_char(d: nat) -> char {
    if d == 0 {
        '0'
    } else if d == 1 {
        '1'
    } else if d == 2 {
        '2'
    } else if d == 3 {
        '3'
    } else if d == 4 {
        '4'
    } else if d == 5 {
        '5'
    } else if d == 6 {
        '6'
    } else if d == 7 {
        '7'
    } else if d == 8 {
        '8'
    } else {
        '9'
    }
}

pub open spec fn digit_val(c: char) -> nat {
    if c == '0' {
        0
    } else if c == '1' {
        1
    } else if c == '2' {
        2
    } else if c == '3' {
        3
    } else if c == '4' {
        4
    } else if c == '5' {
        5
    } else if c == '6' {
        6
    } else if c == '7' {
        7
    } else if c == '8' {
        8
    } else {
        9
    }
}

/// The number a digit sequence denotes, most significant digit first.
pub open spec fn seq_to_nat(s: Seq<char>) -> nat
    decreases s.len(),
{
    if s.len() == 0 {
        0
    } else {
        10 * seq_to_nat(s.drop_last()) + digit_val(s.last())
    }
}

/// The digit sequence of a number, without leading zeros (zero is "0").
pub open spec fn digits_of(m: nat) -> Seq<char>
    decreases m,
{
    if m < 10 {
        seq![digit_char(m)]
    } else {
        digits_of(m / 10).push(digit_char(m % 10))
    }
}

/// The digit sequence of `m` zero-padded on the left to exactly `w` digits.
pub open spec fn padded_digits(m: nat, w: nat) -> Seq<char>
    decreases w,
{
    if w == 0 {
        Seq::empty()
    } else {
        padded_digits(m / 10, (w - 1) as nat).push(digit_char(m % 10))
    }
}

/// The character for one digit value.
fn digit_char_exec(d: u128) -> (r: char)
    requires
        d < 10,
    ensures
        r == digit_char(d as nat),
{
    match d {
        0 => '0',
        1 => '1',
        2 => '2',
        3 => '3',
        4 => '4',
        5 => '5',
        6 => '6',
        7 => '7',
        8 => '8',
        _ => '9',
    }
}

/// The value of one digit character.
fn digit_val_exec(c: char) -> (r: u128)
    requires
        is_digit_char(c),
    ensures
        r == digit_val(c),
        r < 10,
{
    match c {
        '0' => 0,
        '1' => 1,
        '2' => 2,
        '3' => 3,
        '4' => 4,
        '5' => 5,
        '6' => 6,
        '7' => 7,
        '8' => 8,
        _ => 9,
    }
}

/// Append the digit sequence of `m` to `out`.
fn push_digits(m: u128, out: &mut Vec<char>)
    ensures
        final(out)@ == old(out)@ + digits_of(m as nat),
    decreases m,
{
    if m < 10 {
        out.push(digit_char_exec(m));
        assert(out@ =~= old(out)@ + digits_of(m as nat));
    } else {
        push_digits(m / 10, out);
        out.push(digit_char_exec(m % 10));
        assert(out@ =~= old(out)@ + digits_of(m as nat));
    }
}

/// Append the `w`-wide zero-padded digit sequence of `m` to `out`.
fn push_padded_digits(m: u128, w: u32, out: &mut Vec<char>)
    ensures
        final(out)@ == old(out)@ + padded_digits(m as nat, w as nat),
    decreases w,
{
    if w == 0 {
        assert(out@ =~= old(out)@ + padded_digits(m as nat, 0));
    } else {
        push_padded_digits(m / 10, w - 1, out);
        out.push(digit_char_exec(m % 10));
        assert(out@ =~= old(out)@ + padded_digits(m as nat, w as nat));
    }
}

/// Every character `digits_of` produces is a digit, the sequence is never
/// empty, and it starts with '0' only for zero itself.
pub proof fn lemma_digits_of_wf(m: nat)
    ensures
        digits_of(m).len() >= 1,
        forall|i: int|
            0 <= i < digits_of(m).len() ==> is_digit_char(#[trigger] digits_of(m)[i]),
        digits_of(m)[0] == '0' <==> m == 0,
        m == 0 ==> digits_of(m) =~= seq!['0'],
    decreases m,
{
    if m < 10 {
    } else {
        lemma_digits_of_wf(m / 10);
        assert(m / 10 > 0) by (nonlinear_arith)
            requires
                m >= 10,
        ;
    }
}

/// The length of a digit sequence: `m < 10^k` has at most `k` digits.
pub proof fn lemma_digits_of_len(m: nat, k: nat)
    requires
        m < pow10(k),
        k >= 1,
    ensures
        digits_of(m).len() <= k,
    decreases m,
{
    if m < 10 {
    } else {
        assert(k >= 2) by {
            if k == 1 {
                reveal_with_fuel(pow10, 2);
                assert(pow10(1) == 10);
            }
        };
        assert(m / 10 < pow10((k - 1) as nat)) by (nonlinear_arith)
            requires
                m < pow10(k),
                pow10(k) == 10 * pow10((k - 1) as nat),
                m >= 10,
        ;
        lemma_digits_of_len(m / 10, (k - 1) as nat);
    }
}

/// Every character `padded_digits` produces is a digit, and the width is `w`.
pub proof fn lemma_padded_digits_wf(m: nat, w: nat)
    ensures
        padded_digits(m, w).len() == w,
        forall|i: int|
            0 <= i < w ==> is_digit_char(#[trigger] padded_digits(m, w)[i]),
    decreases w,
{
    if w > 0 {
        lemma_padded_digits_wf(m / 10, (w - 1) as nat);
    }
}

/// Relies on `String`'s `FromIterator` implementation for `char`: collecting
/// an iterator of characters yields the string of exactly those characters.
#[verifier::external_body]
fn chars_to_string(v: &Vec<char>) -> (r: String)
    ensures
        r@ == v@,
{
    v.iter().collect()
}

/// Whether a symbol is one of the ten digit characters.
pub fn is_number(symbol: char) -> (r: bool)
    ensures
        r == is_digit_char(symbol),
{
    symbol == '0' || symbol == '1' || symbol == '2' || symbol == '3' || symbol == '4' || symbol
        == '5' || symbol == '6' || symbol == '7' || symbol == '8' || symbol == '9'
}

pub open spec fn is_dot_symbol(c: char) -> bool {
    c == '.' || c == ','
}

/// The mathematical model of an operand buffer.
pub struct OperandV {
    pub digits: Seq<char>,
    pub dot_after: Option<usize>,
    pub neg: bool,
    pub reset: bool,
}

/// One number as typed or displayed: a digit sequence of bounded width, the
/// position the decimal point sits after (if any), a sign, and the flag that
/// makes the next erase wipe the whole operand.
#[derive(Debug)]
pub struct Operand {
    pub buffer: Vec<char>,
    pub dot_is_after: Option<usize>,
    pub is_negative: bool,
    pub reset_on_clear: bool,
}

impl View for Operand {
    type V = OperandV;

    open spec fn view(&self) -> OperandV {
        OperandV {
            digits: self.buffer@,
            dot_after: self.dot_is_after,
            neg: self.is_negative,
            reset: self.reset_on_clear,
        }
    }
}

/// The canonical cleared operand: the single digit zero, no point, no sign.
pub open spec fn empty_operand(reset: bool) -> OperandV {
    OperandV { digits: seq!['0'], dot_after: None, neg: false, reset: reset }
}

impl OperandV {
    /// Structural soundness of the buffer: bounded width, digits only, the
    /// point inside the digits, and a leading zero only as the placeholder
    /// or as the integer part of a pure fraction.
    pub open spec fn wf(self) -> bool {
        &&& 1 <= self.digits.len() <= BUFFER_SIZE_INTERN - 1
        &&& (forall|i: int| 0 <= i < self.digits.len() ==> is_digit_char(#[trigger] self.digits[i]))
        &&& (self.dot_after matches Some(p) ==> p < self.digits.len())
        &&& (self.digits[0] == '0' ==> self.digits.len() == 1 || self.dot_after == Some(0usize))
    }

    /// The digit sequence is "0": nothing but the placeholder digit.
    pub open spec fn internally_empty(self) -> bool {
        self.digits.len() == 1 && self.digits[0] == '0'
    }

    /// Canonical cleared state: placeholder digit and no decimal point.
    pub open spec fn externally_empty(self) -> bool {
        self.internally_empty() && self.dot_after is None
    }

    /// The decimal point sits right after the last digit.
    pub open spec fn dot_at_end(self) -> bool {
        self.dot_after == Some((self.digits.len() - 1) as usize)
    }
}

/// What `send_symbol` makes of an operand: the new operand and whether the
/// symbol was accepted.
pub open spec fn send_symbol_result(o: OperandV, symbol: char) -> (OperandV, bool) {
    if o.digits.len() >= BUFFER_SIZE {
        (o, false)
    } else if o.dot_after is None && is_dot_symbol(symbol) {
        ((OperandV { dot_after: Some((o.digits.len() - 1) as usize), ..o }), true)
    } else if is_digit_char(symbol) {
        if o.internally_empty() && !o.dot_at_end() {
            ((OperandV { digits: seq![symbol], ..o }), true)
        } else {
            ((OperandV { digits: o.digits.push(symbol), ..o }), true)
        }
    } else {
        (o, false)
    }
}

/// What `send_erase` makes of an operand: the new operand and whether the
/// erase changed anything.
pub open spec fn send_erase_result(o: OperandV) -> (OperandV, bool) {
    if o.reset {
        ((OperandV { digits: seq!['0'], dot_after: None, neg: false, reset: o.reset }), true)
    } else if o.dot_at_end() {
        ((OperandV { dot_after: None, ..o }), true)
    } else if o.internally_empty() {
        (o, false)
    } else if o.digits.len() == 1 {
        ((OperandV { digits: seq!['0'], dot_after: o.dot_after, neg: false, reset: o.reset }), true)
    } else {
        ((OperandV { digits: o.digits.drop_last(), ..o }), true)
    }
}

/// The full rendered form: sign, then the digits with the decimal point
/// reinserted. A point sitting after the last digit is not rendered.
pub open spec fn render_spec(o: OperandV) -> Seq<char> {
    let sign: Seq<char> = if o.neg {
        seq!['-']
    } else {
        Seq::empty()
    };
    match o.dot_after {
        None => sign + o.digits,
        Some(p) => if p == o.digits.len() - 1 {
            sign + o.digits
        } else {
            sign + o.digits.take(p + 1) + seq!['.'] + o.digits.skip(p + 1)
        },
    }
}

/// Whether the displayed form carries a '.' character: the point is interior,
/// or it trails the last digit of a buffer that still has free space.
pub open spec fn display_has_dot(o: OperandV) -> bool {
    match o.dot_after {
        None => false,
        Some(p) => p < o.digits.len() - 1 || o.digits.len() < BUFFER_SIZE,
    }
}

/// The display form: the rendered string, a trailing point shown while the
/// buffer has free space, and digits beyond the display capacity dropped.
/// The sign, the point and a leading zero do not count against capacity.
pub open spec fn display_spec(o: OperandV) -> Seq<char> {
    let base = render_spec(o) + if o.dot_at_end() && o.digits.len() < BUFFER_SIZE {
        seq!['.']
    } else {
        Seq::<char>::empty()
    };
    let starts_zero: int = if o.digits[0] == '0' {
        1
    } else {
        0
    };
    let not_counted: int = starts_zero + (if o.neg {
        1int
    } else {
        0int
    }) + (if display_has_dot(o) {
        1int
    } else {
        0int
    });
    let digit_count = base.len() - not_counted;
    if digit_count > BUFFER_SIZE {
        base.take(base.len() - (digit_count - BUFFER_SIZE))
    } else {
        base
    }
}

/// The decimal value an operand denotes. A point after the last digit does
/// not yet contribute a fractional digit.
pub open spec fn to_dec_spec(o: OperandV) -> Dec {
    let scale: nat = match o.dot_after {
        None => 0nat,
        Some(p) => if p == o.digits.len() - 1 {
            0nat
        } else {
            (o.digits.len() - 1 - p) as nat
        },
    };
    Dec { mant: seq_to_nat(o.digits) as u128, scale: scale as u32, neg: o.neg }
}

/// The operand laid out for a decimal value: the integer part's digits, then
/// as many fractional digits as the internal capacity keeps, the point after
/// the integer part, and the sign taken from the value.
pub open spec fn from_dec_spec(d: Dec) -> OperandV {
    let ip = (d.mant as nat) / pow10(d.scale as nat);
    let fp = (d.mant as nat) % pow10(d.scale as nat);
    let idigits = digits_of(ip);
    if d.scale == 0 {
        OperandV { digits: idigits, dot_after: None, neg: d.neg, reset: false }
    } else {
        let keep: int = if d.scale <= BUFFER_SIZE_INTERN - 1 - idigits.len() {
            d.scale as int
        } else {
            BUFFER_SIZE_INTERN - 1 - idigits.len()
        };
        OperandV {
            digits: idigits + padded_digits(fp, d.scale as nat).take(keep),
            dot_after: Some((idigits.len() - 1) as usize),
            neg: d.neg,
            reset: false,
        }
    }
}

impl Operand {
    /// Structural soundness of the buffer, stated on the model.
    pub open spec fn wf(self) -> bool {
        self@.wf()
    }

    /// A fresh canonical-empty operand.
    pub fn new() -> (r: Operand)
        ensures
            r.wf(),
            r@ == empty_operand(false),
    {
        let mut buffer: Vec<char> = Vec::new();
        buffer.push('0');
        let r = Operand { buffer, dot_is_after: None, is_negative: false, reset_on_clear: false };
        proof {
            assert(r@.digits =~= seq!['0']);
        }
        r
    }

    /// Feed one symbol: a digit is appended (the placeholder zero is replaced
    /// first), a decimal point is recorded if none exists yet, anything else
    /// is rejected, and nothing is accepted once the display capacity is full.
    pub fn send_symbol(&mut self, symbol: char) -> (r: bool)
        requires
            old(self).wf(),
        ensures
            final(self).wf(),
            (final(self)@, r) == send_symbol_result(old(self)@, symbol),
    {
        if !self.has_free_space() {
            return false;
        }
        if self.dot_is_after.is_none() && Self::is_dot(symbol) {
            self.dot_is_after = Some(self.buffer.len() - 1);
            return true;
        }
        if is_number(symbol) {
            if self.is_internally_empty() && !self.dot_is_here() {
                self.buffer.clear();
            }
            self.buffer.push(symbol);
            proof {
                if old(self)@.internally_empty() && !old(self)@.dot_at_end() {
                    assert(self@.digits =~= seq![symbol]);
                }
            }
            return true;
        }
        false
    }

    /// Record a negative sign; reports whether anything changed.
    pub fn set_negative(&mut self) -> (r: bool)
        ensures
            final(self)@ == (OperandV { neg: true, ..old(self)@ }),
            r == !old(self)@.neg,
    {
        if self.is_negative {
            return false;
        }
        self.is_negative = true;
        true
    }

    /// Arm or disarm the wipe-on-next-erase behaviour.
    pub fn set_should_reset_on_clear(&mut self, value: bool)
        ensures
            final(self)@ == (OperandV { reset: value, ..old(self)@ }),
    {
        self.reset_on_clear = value;
    }

    /// Whether the next erase wipes the whole operand.
    pub fn should_reset_on_clear(&self) -> (r: bool)
        ensures
            r == self@.reset,
    {
        self.reset_on_clear
    }

    /// Whether the operand carries no negative sign.
    pub fn is_positive(&self) -> (r: bool)
        ensures
            r == !self@.neg,
    {
        !self.is_negative
    }

    /// One erase step: wipe everything if armed, else drop a trailing point,
    /// else delete the last digit (restoring the placeholder zero when the
    /// last one goes); erasing a canonical-empty operand is a no-op.
    pub fn send_erase(&mut self) -> (r: bool)
        requires
            old(self).wf(),
        ensures
            final(self).wf(),
            (final(self)@, r) == send_erase_result(old(self)@),
    {
        if self.reset_on_clear {
            self.clean_entirely();
            proof {
                assert(self@.digits =~= seq!['0']);
            }
            return true;
        }
        if self.dot_is_here() {
            self.dot_is_after = None;
            return true;
        }
        if self.is_internally_empty() {
            return false;
        }
        self.buffer.pop();
        if self.buffer.len() == 0 {
            self.buffer.push('0');
            self.is_negative = false;
            proof {
                assert(self@.digits =~= seq!['0']);
            }
        }
        true
    }

    /// Reset to the canonical empty operand (the wipe-on-erase flag stays).
    fn clean_entirely(&mut self)
        ensures
            final(self)@ == (OperandV {
                digits: old(self)@.digits.take(0).push('0'),
                dot_after: None,
                neg: false,
                reset: old(self)@.reset,
            }),
    {
        self.dot_is_after = None;
        self.is_negative = false;
        self.buffer.clear();
        self.buffer.push('0');
        proof {
            assert(self@.digits =~= old(self)@.digits.take(0).push('0'));
        }
    }

    /// How many digit cells count toward the display.
    pub fn numbers_count(&self) -> (r: usize)
        ensures
            r == if self@.digits.len() <= BUFFER_SIZE {
                self@.digits.len() as int
            } else {
                BUFFER_SIZE as int
            },
    {
        if self.buffer.len() <= BUFFER_SIZE {
            self.buffer.len()
        } else {
            BUFFER_SIZE
        }
    }

    /// Whether a decimal point has been recorded.
    pub fn has_dot(&self) -> (r: bool)
        ensures
            r == (self@.dot_after is Some),
    {
        self.dot_is_after.is_some()
    }

    /// Whether the decimal point sits right after the last digit.
    fn dot_is_here(&self) -> (r: bool)
        requires
            self.wf(),
        ensures
            r == self@.dot_at_end(),
    {
        match self.dot_is_after {
            Some(p) => p == self.buffer.len() - 1,
            None => false,
        }
    }

    /// Whether typing may still add a digit or point.
    fn has_free_space(&self) -> (r: bool)
        ensures
            r == (self@.digits.len() < BUFFER_SIZE),
    {
        self.buffer.len() < BUFFER_SIZE
    }

    /// Whether the display capacity is exhausted.
    fn buffer_is_full(&self) -> (r: bool)
        ensures
            r == (self@.digits.len() >= BUFFER_SIZE),
    {
        !self.has_free_space()
    }

    /// Whether the digit sequence is just the placeholder zero.
    pub fn is_internally_empty(&self) -> (r: bool)
        ensures
            r == self@.internally_empty(),
    {
        self.buffer.len() == 1 && self.buffer[0] == '0'
    }

    /// Whether the operand is in its canonical cleared state.
    pub fn is_externally_empty(&self) -> (r: bool)
        ensures
            r == self@.externally_empty(),
    {
        self.is_internally_empty() && self.dot_is_after.is_none()
    }

    /// Whether a symbol is accepted as the decimal separator.
    fn is_dot(symbol: char) -> (r: bool)
        ensures
            r == is_dot_symbol(symbol),
    {
        symbol == '.' || symbol == ','
    }

    /// The full rendered form: sign, digits, and the interior decimal point.
    pub fn to_string(&self) -> (r: String)
        requires
            self.wf(),
        ensures
            r@ == render_spec(self@),
    {
        let v = self.render_chars();
        chars_to_string(&v)
    }

    /// The rendered form as characters.
    fn render_chars(&self) -> (v: Vec<char>)
        requires
            self.wf(),
        ensures
            v@ == render_spec(self@),
    {
        let mut v: Vec<char> = Vec::new();
        if self.is_negative {
            v.push('-');
        }
        let ghost sign: Seq<char> = if self@.neg {
            seq!['-']
        } else {
            Seq::<char>::empty()
        };
        proof {
            assert(v@ =~= sign);
        }
        match self.dot_is_after {
            None => {
                push_char_range(&mut v, &self.buffer, 0, self.buffer.len());
                proof {
                    assert(self@.digits.subrange(0, self@.digits.len() as int) =~= self@.digits);
                    assert(v@ =~= render_spec(self@));
                }
            },
            Some(p) => {
                if p == self.buffer.len() - 1 {
                    push_char_range(&mut v, &self.buffer, 0, self.buffer.len());
                    proof {
                        assert(self@.digits.subrange(0, self@.digits.len() as int)
                            =~= self@.digits);
                        assert(v@ =~= render_spec(self@));
                    }
                } else {
                    push_char_range(&mut v, &self.buffer, 0, p + 1);
                    v.push('.');
                    push_char_range(&mut v, &self.buffer, p + 1, self.buffer.len());
                    proof {
                        assert(v@ =~= render_spec(self@));
                    }
                }
            },
        }
        v
    }

    /// The display form: what the visible line shows, see `display_spec`.
    pub fn current_state_string(&self) -> (r: String)
        requires
            self.wf(),
        ensures
            r@ == display_spec(self@),
    {
        let mut v = self.render_chars();
        if self.dot_is_here() && !self.buffer_is_full() {
            v.push('.');
        }
        proof {
            assert(v@ =~= render_spec(self@) + if self@.dot_at_end() && self@.digits.len()
                < BUFFER_SIZE {
                seq!['.']
            } else {
                Seq::<char>::empty()
            });
        }
        let ghost base = v@;
        let mut not_counted: usize = 0;
        if self.buffer[0] == '0' {
            not_counted = not_counted + 1;
        }
        if self.is_negative {
            not_counted = not_counted + 1;
        }
        let has_dot_char = match self.dot_is_after {
            None => false,
            Some(p) => p < self.buffer.len() - 1 || self.buffer.len() < BUFFER_SIZE,
        };
        if has_dot_char {
            not_counted = not_counted + 1;
        }
        let digit_count = v.len() - not_counted;
        if digit_count > BUFFER_SIZE {
            let target = v.len() - (digit_count - BUFFER_SIZE);
            while v.len() > target
                invariant
                    target <= v.len() <= base.len(),
                    v@ =~= base.take(v.len() as int),
                decreases v.len(),
            {
                v.pop();
                proof {
                    assert(base.take(v.len() as int + 1).drop_last() =~= base.take(
                        v.len() as int,
                    ));
                }
            }
            proof {
                assert(v@ =~= display_spec(self@));
            }
        } else {
            proof {
                assert(v@ =~= base.take(base.len() as int));
                assert(v@ =~= display_spec(self@));
            }
        }
        chars_to_string(&v)
    }
}

/// A digit sequence of width `w` denotes a number below `10^w`.
pub proof fn lemma_seq_to_nat_bound(s: Seq<char>)
    ensures
        seq_to_nat(s) < pow10(s.len()),
    decreases s.len(),
{
    if s.len() == 0 {
    } else {
        lemma_seq_to_nat_bound(s.drop_last());
        assert(pow10(s.len()) == 10 * pow10((s.len() - 1) as nat));
    }
}

impl Operand {
    /// The exact decimal value this operand denotes. The conversion cannot
    /// fail on a well-formed buffer, so the result is always the success case.
    pub fn to_dec(&self) -> (r: Result<Dec, CommandError>)
        requires
            self.wf(),
        ensures
            r matches Ok(d) && d == to_dec_spec(self@),
            to_dec_spec(self@).valid(),
    {
        let mut m: u128 = 0;
        let mut i: usize = 0;
        proof {
            assert(self.buffer@.take(0) =~= Seq::<char>::empty());
        }
        while i < self.buffer.len()
            invariant
                self.wf(),
                i <= self.buffer@.len(),
                m == seq_to_nat(self.buffer@.take(i as int)),
                m < pow10(i as nat),
            decreases self.buffer@.len() - i,
        {
            let c = self.buffer[i];
            let d = digit_val_exec(c);
            proof {
                lemma_pow10_mono((i + 1) as nat, 28);
                lemma_pow10_28();
                assert(pow10((i + 1) as nat) == 10 * pow10(i as nat));
                assert(self.buffer@.take(i as int + 1).drop_last() =~= self.buffer@.take(
                    i as int,
                ));
                assert(self.buffer@.take(i as int + 1).last() == self.buffer@[i as int]);
            }
            m = m * 10 + d;
            i = i + 1;
        }
        proof {
            assert(self.buffer@.take(self.buffer@.len() as int) =~= self.buffer@);
            lemma_pow10_mono(self.buffer@.len() as nat, 28);
            lemma_pow10_28();
        }
        let scale: u32 = match self.dot_is_after {
            None => 0,
            Some(p) => {
                if p == self.buffer.len() - 1 {
                    0
                } else {
                    (self.buffer.len() - 1 - p) as u32
                }
            },
        };
        Ok(Dec { mant: m, scale, neg: self.is_negative })
    }

    /// Lay a decimal value out in a fresh operand buffer: fails with
    /// `IncorrectOperand` exactly when the integer part's magnitude exceeds
    /// the largest the buffer can carry.
    pub fn try_from(value: &Dec) -> (r: Result<Operand, CommandError>)
        requires
            value.valid(),
        ensures
            value.in_buffer_range() ==> (r matches Ok(o) && o@ == from_dec_spec(*value)
                && o.wf()),
            !value.in_buffer_range() ==> r == Result::<Operand, CommandError>::Err(
                CommandError::IncorrectOperand(*value),
            ),
    {
        proof {
            lemma_pow10_pos(value.scale as nat);
        }
        let p = pow10_u128(value.scale);
        let ip = value.mant / p;
        let fp = value.mant % p;
        if ip > BUFFER_MAX_NUMBER {
            return Err(CommandError::IncorrectOperand(*value));
        }
        let mut buffer: Vec<char> = Vec::new();
        push_digits(ip, &mut buffer);
        let il = buffer.len();
        proof {
            lemma_digits_of_wf(ip as nat);
            reveal_with_fuel(pow10, 17);
            assert(pow10(16) == 10000000000000000);
            lemma_digits_of_len(ip as nat, 16);
            assert(buffer@ =~= digits_of(ip as nat));
        }
        if value.scale == 0 {
            let r = Operand {
                buffer,
                dot_is_after: None,
                is_negative: value.neg,
                reset_on_clear: false,
            };
            proof {
                assert(r@.digits == digits_of(ip as nat));
                if r@.digits[0] == '0' {
                    assert(ip == 0);
                    assert(r@.digits =~= seq!['0']);
                }
                assert(r@ == from_dec_spec(*value));
            }
            return Ok(r);
        }
        push_padded_digits(fp, value.scale, &mut buffer);
        proof {
            lemma_padded_digits_wf(fp as nat, value.scale as nat);
        }
        let keep: usize = if (value.scale as usize) <= BUFFER_SIZE_INTERN - 1 - il {
            value.scale as usize
        } else {
            BUFFER_SIZE_INTERN - 1 - il
        };
        let target = il + keep;
        let ghost full = buffer@;
        proof {
            assert(full.take(full.len() as int) =~= full);
        }
        while buffer.len() > target
            invariant
                target <= buffer.len() <= full.len(),
                buffer@ =~= full.take(buffer.len() as int),
            decreases buffer.len(),
        {
            buffer.pop();
            proof {
                assert(full.take(buffer.len() as int + 1).drop_last() =~= full.take(
                    buffer.len() as int,
                ));
            }
        }
        let r = Operand {
            buffer,
            dot_is_after: Some(il - 1),
            is_negative: value.neg,
            reset_on_clear: false,
        };
        proof {
            assert(r@.digits =~= digits_of(ip as nat) + padded_digits(
                fp as nat,
                value.scale as nat,
            ).take(keep as int));
            assert(r@.digits == from_dec_spec(*value).digits);
            assert(r@ == from_dec_spec(*value));
            if r@.digits[0] == '0' {
                assert(ip == 0);
            }
        }
        Ok(r)
    }
}

/// The plain decimal string of a value: sign, integer digits, and the full
/// zero-padded fraction when the scale is positive.
pub open spec fn dec_chars(d: Dec) -> Seq<char> {
    let ip = (d.mant as nat) / pow10(d.scale as nat);
    let fp = (d.mant as nat) % pow10(d.scale as nat);
    (if d.neg {
        seq!['-']
    } else {
        Seq::<char>::empty()
    }) + digits_of(ip) + (if d.scale == 0 {
        Seq::<char>::empty()
    } else {
        seq!['.'] + padded_digits(fp, d.scale as nat)
    })
}

/// Render a decimal value as its plain digit string.
pub fn dec_to_chars(value: &Dec) -> (v: Vec<char>)
    requires
        value.valid(),
    ensures
        v@ == dec_chars(*value),
{
    proof {
        lemma_pow10_pos(value.scale as nat);
    }
    let p = pow10_u128(value.scale);
    let ip = value.mant / p;
    let fp = value.mant % p;
    let mut v: Vec<char> = Vec::new();
    if value.neg {
        v.push('-');
    }
    let ghost sign: Seq<char> = if value.neg {
        seq!['-']
    } else {
        Seq::<char>::empty()
    };
    proof {
        assert(v@ =~= sign);
    }
    push_digits(ip, &mut v);
    if value.scale > 0 {
        v.push('.');
        push_padded_digits(fp, value.scale, &mut v);
    }
    proof {
        assert(v@ =~= dec_chars(*value));
    }
    v
}

impl Default for Operand {
    /// The canonical-empty operand.
    fn default() -> (r: Operand)
        ensures
            r.wf(),
            r@ == empty_operand(false),
    {
        Operand::new()
    }
}

/// A digit sequence without a leading zero denotes at least `10^(w-1)`.
pub proof fn lemma_seq_to_nat_lower(s: Seq<char>)
    requires
        s.len() >= 1,
        forall|i: int| 0 <= i < s.len() ==> is_digit_char(#[trigger] s[i]),
        s[0] != '0',
    ensures
        seq_to_nat(s) >= pow10((s.len() - 1) as nat),
    decreases s.len(),
{
    if s.len() == 1 {
        assert(s.last() == s[0]);
        assert(s.drop_last().len() == 0);
        assert(digit_val(s[0]) >= 1);
    } else {
        assert(s.drop_last()[0] == s[0]);
        lemma_seq_to_nat_lower(s.drop_last());
        assert(pow10((s.len() - 1) as nat) == 10 * pow10((s.len() - 2) as nat));
    }
}

/// Reading the digits of a denoted number gives the digits back, provided
/// the sequence carries no stray leading zero.
pub proof fn lemma_digits_of_inverse(s: Seq<char>)
    requires
        s.len() >= 1,
        forall|i: int| 0 <= i < s.len() ==> is_digit_char(#[trigger] s[i]),
        s[0] != '0' || s.len() == 1,
    ensures
        digits_of(seq_to_nat(s)) == s,
    decreases s.len(),
{
    let m = seq_to_nat(s);
    if s.len() == 1 {
        assert(s.drop_last().len() == 0);
        assert(seq_to_nat(s.drop_last()) == 0);
        assert(s.last() == s[0]);
        assert(m == digit_val(s[0]));
        assert(digit_char(digit_val(s[0])) == s[0]);
        assert(digits_of(m) =~= s);
    } else {
        let a = s.drop_last();
        let d = digit_val(s.last());
        assert(a[0] == s[0]);
        lemma_seq_to_nat_lower(a);
        lemma_pow10_pos((a.len() - 1) as nat);
        assert(m == 10 * seq_to_nat(a) + d);
        assert(m >= 10);
        lemma_fundamental_div_mod_converse(m as int, 10, seq_to_nat(a) as int, d as int);
        lemma_digits_of_inverse(a);
        assert(digit_char(digit_val(s.last())) == s.last());
        assert(digits_of(m) =~= s);
    }
}

/// Reading the zero-padded digits of a denoted number gives any digit
/// sequence back, width for width.
pub proof fn lemma_padded_inverse(s: Seq<char>)
    requires
        forall|i: int| 0 <= i < s.len() ==> is_digit_char(#[trigger] s[i]),
    ensures
        padded_digits(seq_to_nat(s), s.len()) == s,
    decreases s.len(),
{
    if s.len() == 0 {
        assert(padded_digits(0, 0) =~= s);
    } else {
        let a = s.drop_last();
        let d = digit_val(s.last());
        let m = seq_to_nat(s);
        assert(m == 10 * seq_to_nat(a) + d);
        lemma_fundamental_div_mod_converse(m as int, 10, seq_to_nat(a) as int, d as int);
        lemma_padded_inverse(a);
        assert(digit_char(digit_val(s.last())) == s.last());
        assert(padded_digits(m, s.len()) =~= s);
    }
}

/// Concatenated digit sequences denote `high * 10^width(low) + low`.
pub proof fn lemma_seq_to_nat_split(a: Seq<char>, b: Seq<char>)
    ensures
        seq_to_nat(a + b) == seq_to_nat(a) * pow10(b.len()) + seq_to_nat(b),
    decreases b.len(),
{
    if b.len() == 0 {
        assert(a + b =~= a);
        assert(seq_to_nat(a) * 1 == seq_to_nat(a)) by (nonlinear_arith);
    } else {
        lemma_seq_to_nat_split(a, b.drop_last());
        assert((a + b).drop_last() =~= a + b.drop_last());
        assert((a + b).last() == b.last());
        assert(seq_to_nat(a + b) == 10 * seq_to_nat(a + b.drop_last()) + digit_val(b.last()));
        let high = seq_to_nat(a);
        let k = b.len();
        assert(10 * (high * pow10((k - 1) as nat) + seq_to_nat(b.drop_last())) == high * (10
            * pow10((k - 1) as nat)) + 10 * seq_to_nat(b.drop_last())) by (nonlinear_arith);
        assert(pow10(k) == 10 * pow10((k - 1) as nat));
    }
}

/// Law: an operand typed within the display capacity survives the round trip
/// through its decimal value — the digits, the point position and the sign
/// come back unchanged when the value is laid out again. A point trailing
/// the last digit carries no fractional digit yet and is the one part such a
/// round trip normalizes away.
pub proof fn lemma_operand_value_round_trip(o: OperandV)
    requires
        o.wf(),
        o.digits.len() <= BUFFER_SIZE,
        !o.dot_at_end(),
    ensures
        to_dec_spec(o).valid(),
        to_dec_spec(o).in_buffer_range(),
        from_dec_spec(to_dec_spec(o)).digits == o.digits,
        from_dec_spec(to_dec_spec(o)).dot_after == o.dot_after,
        from_dec_spec(to_dec_spec(o)).neg == o.neg,
{
    lemma_seq_to_nat_bound(o.digits);
    lemma_pow10_mono(o.digits.len(), 16);
    reveal_with_fuel(pow10, 17);
    assert(pow10(16) == 10000000000000000);
    let m = seq_to_nat(o.digits);
    let d = to_dec_spec(o);
    assert(d.mant == m);
    match o.dot_after {
        None => {
            assert(d.scale == 0);
            assert(pow10(0) == 1);
            lemma_div_by_multiple(m as int, 1);
            assert(m * 1 == m) by (nonlinear_arith);
            assert(d.trunc_abs() == m);
            lemma_digits_of_inverse(o.digits);
        },
        Some(p) => {
            assert(p < o.digits.len() - 1);
            let s = (o.digits.len() - 1 - p) as nat;
            assert(d.scale == s);
            let a = o.digits.take(p + 1);
            let b = o.digits.skip(p + 1);
            assert(a + b =~= o.digits);
            lemma_seq_to_nat_split(a, b);
            lemma_seq_to_nat_bound(b);
            assert(b.len() == s);
            lemma_pow10_pos(s);
            lemma_fundamental_div_mod_converse(
                m as int,
                pow10(s) as int,
                seq_to_nat(a) as int,
                seq_to_nat(b) as int,
            );
            assert((d.mant as nat) / pow10(s) == seq_to_nat(a));
            assert((d.mant as nat) % pow10(s) == seq_to_nat(b));
            assert(a[0] == o.digits[0]);
            if a[0] == '0' {
                assert(o.dot_after == Some(0usize));
                assert(a.len() == 1);
            }
            lemma_digits_of_inverse(a);
            lemma_padded_inverse(b);
            assert(digits_of(seq_to_nat(a)).len() == p + 1);
            lemma_seq_to_nat_bound(a);
            lemma_pow10_mono(a.len(), 16);
            assert(d.trunc_abs() <= BUFFER_MAX_NUMBER);
            let laid = from_dec_spec(d);
            assert(padded_digits(seq_to_nat(b), s).take(s as int) =~= padded_digits(
                seq_to_nat(b),
                s,
            ));
            assert(laid.digits =~= o.digits);
        },
    }
}

/// Law: erasing a canonical-empty operand with no wipe armed is a no-op —
/// the operand is unchanged and the erase reports failure.
pub proof fn lemma_erase_on_empty_is_noop(o: OperandV)
    requires
        o.externally_empty(),
        !o.reset,
    ensures
        send_erase_result(o) == (o, false),
{
}

/// Law: typing never grows the stored digits beyond the display capacity,
/// and a keystroke arriving at capacity is rejected with the operand intact.
pub proof fn lemma_send_symbol_capacity(o: OperandV, symbol: char)
    ensures
        send_symbol_result(o, symbol).0.digits.len() <= if o.digits.len() >= BUFFER_SIZE {
            o.digits.len() as int
        } else {
            BUFFER_SIZE as int
        },
        o.digits.len() >= BUFFER_SIZE ==> send_symbol_result(o, symbol) == (o, false),
{
}

/// Append `src[from..to]` to `out`.
fn push_char_range(out: &mut Vec<char>, src: &Vec<char>, from: usize, to: usize)
    requires
        from <= to <= src@.len(),
    ensures
        final(out)@ == old(out)@ + src@.subrange(from as int, to as int),
{
    let mut i = from;
    while i < to
        invariant
            from <= i <= to <= src@.len(),
            out@ =~= old(out)@ + src@.subrange(from as int, i as int),
        decreases to - i,
    {
        let c = src[i];
        out.push(c);
        proof {
            assert(src@.subrange(from as int, i + 1) =~= src@.subrange(from as int, i as int).push(
                src@[i as int],
            ));
        }
        i = i + 1;
    }
    proof {
        assert(out@ =~= old(out)@ + src@.subrange(from as int, to as int));
    }
}

} // verus!
