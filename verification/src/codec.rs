//! The persisted wire form of a timer state: a flat key-value object with the
//! field names of the state record, written and read back by verified code.
//!
//! `spec_encode` is the wire form of a state; `spec_parse` is the exact
//! meaning of the reader. `lemma_encode_parse_round_trip` states the law that
//! reading an encoded state yields the state back.

use vstd::prelude::*;
use vstd::string::StrSliceExecFns;
use vstd::string::StringExecFns;
use crate::clock::quote_free;
use crate::pomodoro::Pomodoro;
use crate::pomodoro::StateView;
use crate::text::dec_str;
use crate::text::digit_char;
use crate::text::push_dec;

verus! {

broadcast use vstd::seq::group_seq_axioms;
// ---------------------------------------------------------------------------
// The wire form
// ---------------------------------------------------------------------------
pub open spec fn lit_head() -> Seq<char> {
    "{\"start_date_time\":\""@
}

pub open spec fn lit_after_start() -> Seq<char> {
    "\",\"break_date_time\":\""@
}

pub open spec fn lit_after_break() -> Seq<char> {
    "\",\"work_count\":"@
}

pub open spec fn lit_before_break_count() -> Seq<char> {
    ",\"break_count\":"@
}

pub open spec fn lit_before_working() -> Seq<char> {
    ",\"working\":"@
}

pub open spec fn lit_before_on_break() -> Seq<char> {
    ",\"on_break\":"@
}

pub open spec fn lit_before_on_long_break() -> Seq<char> {
    ",\"on_long_break\":"@
}

pub open spec fn lit_tail() -> Seq<char> {
    "}"@
}

pub open spec fn bool_str(b: bool) -> Seq<char> {
    if b {
        "true"@
    } else {
        "false"@
    }
}

/// A state that the wire form can carry faithfully: the timestamps hold no
/// quote character, and the counters fit the counter fields.
pub open spec fn serializable(v: StateView) -> bool {
    &&& quote_free(v.start_date_time)
    &&& quote_free(v.break_date_time)
    &&& v.work_count < 256
    &&& v.break_count < 256
}

/// The encoded form of a state.
pub open spec fn spec_encode(v: StateView) -> Seq<char> {
    lit_head() + (v.start_date_time + (lit_after_start() + (v.break_date_time + (lit_after_break()
        + (dec_str(v.work_count) + (lit_before_break_count() + (dec_str(v.break_count) + (
    lit_before_working() + (bool_str(v.working) + (lit_before_on_break() + (bool_str(v.on_break) + (
    lit_before_on_long_break() + (bool_str(v.on_long_break) + lit_tail())))))))))))))
}

// ---------------------------------------------------------------------------
// The reader, as a mathematical function
// ---------------------------------------------------------------------------
/// The literal `lit` stands in `s` at position `i`.
pub open spec fn match_lit(s: Seq<char>, i: int, lit: Seq<char>) -> bool {
    &&& 0 <= i
    &&& i + lit.len() <= s.len()
    &&& s.subrange(i, i + lit.len()) == lit
}

/// Consumes the literal `lit` at position `i`.
pub open spec fn take_lit(s: Seq<char>, i: int, lit: Seq<char>) -> Option<int> {
    if match_lit(s, i, lit) {
        Some(i + lit.len() as int)
    } else {
        None
    }
}

/// The position of the first quote character at or after `i`, if any.
pub open spec fn find_quote(s: Seq<char>, i: int) -> Option<int>
    decreases s.len() - i,
{
    if i < 0 || i >= s.len() {
        None
    } else if s[i] == '"' {
        Some(i)
    } else {
        find_quote(s, i + 1)
    }
}

/// Consumes a string field body at position `i`: everything up to the next
/// quote character, which is left in place for the literal that follows.
pub open spec fn take_str(s: Seq<char>, i: int) -> Option<(Seq<char>, int)> {
    match find_quote(s, i) {
        Some(j) => Some((s.subrange(i, j), j)),
        None => None,
    }
}

/// The value of a decimal digit character, or 10 for any other character.
pub open spec fn digit_val(c: char) -> nat {
    if c == '0' {
        0
    } else if c == '1' {
        1
    } else if c == '2' {
        2
    } else if c == '3' {
        3
    } else if c == '4' {
        4
    } else if c == '5' {
        5
    } else if c == '6' {
        6
    } else if c == '7' {
        7
    } else if c == '8' {
        8
    } else if c == '9' {
        9
    } else {
        10
    }
}

pub open spec fn is_digit(c: char) -> bool {
    digit_val(c) < 10
}

/// The value of a digit run, most significant digit first.
pub open spec fn digits_val(ds: Seq<char>) -> nat
    decreases ds.len(),
{
    if ds.len() == 0 {
        0
    } else {
        digits_val(ds.drop_last()) * 10 + digit_val(ds.last())
    }
}

/// The end of the digit run starting at `i`.
pub open spec fn digit_run_end(s: Seq<char>, i: int) -> int
    decreases s.len() - i,
{
    if 0 <= i < s.len() && is_digit(s[i]) {
        digit_run_end(s, i + 1)
    } else {
        i
    }
}

/// Consumes a counter value at position `i`: a run of one to three digits
/// whose value fits a counter field.
pub open spec fn take_num(s: Seq<char>, i: int) -> Option<(nat, int)> {
    let e = digit_run_end(s, i);
    if e == i {
        None
    } else if e - i <= 3 && digits_val(s.subrange(i, e)) < 256 {
        Some((digits_val(s.subrange(i, e)), e))
    } else {
        None
    }
}

/// Consumes a boolean value at position `i`.
pub open spec fn take_bool(s: Seq<char>, i: int) -> Option<(bool, int)> {
    if match_lit(s, i, "true"@) {
        Some((true, i + "true"@.len() as int))
    } else if match_lit(s, i, "false"@) {
        Some((false, i + "false"@.len() as int))
    } else {
        None
    }
}

/// What the reader makes of a character sequence: the state it carries, or
/// nothing when the sequence is not an encoded state.
pub open spec fn spec_parse(s: Seq<char>) -> Option<StateView> {
    match take_lit(s, 0, lit_head()) {
        None => None,
        Some(i1) => match take_str(s, i1) {
            None => None,
            Some((sdt, j1)) => match take_lit(s, j1, lit_after_start()) {
                None => None,
                Some(i2) => match take_str(s, i2) {
                    None => None,
                    Some((bdt, j2)) => match take_lit(s, j2, lit_after_break()) {
                        None => None,
                        Some(i3) => match take_num(s, i3) {
                            None => None,
                            Some((wc, i4)) => match take_lit(s, i4, lit_before_break_count()) {
                                None => None,
                                Some(i5) => match take_num(s, i5) {
                                    None => None,
                                    Some((bc, i6)) => match take_lit(s, i6, lit_before_working()) {
                                        None => None,
                                        Some(i7) => match take_bool(s, i7) {
                                            None => None,
                                            Some((w, i8)) => match take_lit(
                                                s,
                                                i8,
                                                lit_before_on_break(),
                                            ) {
                                                None => None,
                                                Some(i9) => match take_bool(s, i9) {
                                                    None => None,
                                                    Some((ob, i10)) => match take_lit(
                                                        s,
                                                        i10,
                                                        lit_before_on_long_break(),
                                                    ) {
                                                        None => None,
                                                        Some(i11) => match take_bool(s, i11) {
                                                            None => None,
                                                            Some((olb, i12)) => match take_lit(
                                                                s,
                                                                i12,
                                                                lit_tail(),
                                                            ) {
                                                                None => None,
                                                                Some(i13) => if i13 == s.len() {
                                                                    Some(
                                                                        StateView {
                                                                            start_date_time: sdt,
                                                                            break_date_time: bdt,
                                                                            work_count: wc,
                                                                            break_count: bc,
                                                                            working: w,
                                                                            on_break: ob,
                                                                            on_long_break: olb,
                                                                        },
                                                                    )
                                                                } else {
                                                                    None
                                                                },
                                                            },
                                                        },
                                                    },
                                                },
                                            },
                                        },
                                    },
                                },
                            },
                        },
                    },
                },
            },
        },
    }
}

// ---------------------------------------------------------------------------
// The reader and writer, as code
// ---------------------------------------------------------------------------
fn digit_value(c: char) -> (d: u8)
    ensures
        d as nat == digit_val(c),
{
    match c {
        '0' => 0,
        '1' => 1,
        '2' => 2,
        '3' => 3,
        '4' => 4,
        '5' => 5,
        '6' => 6,
        '7' => 7,
        '8' => 8,
        '9' => 9,
        _ => 10,
    }
}

/// Consumes `lit` at position `i` of `s`, as `take_lit` does.
fn expect_lit(s: &str, i: usize, lit: &str) -> (r: Option<usize>)
    requires
        i <= s@.len(),
    ensures
        match r {
            Some(j) => take_lit(s@, i as int, lit@) == Some(j as int) && i <= j <= s@.len(),
            None => take_lit(s@, i as int, lit@) is None,
        },
{
    let n = s.unicode_len();
    let m = lit.unicode_len();
    if m > n - i {
        return None;
    }
    let mut k: usize = 0;
    while k < m
        invariant
            i + m <= n,
            n == s@.len(),
            m == lit@.len(),
            k <= m,
            forall|t: int| 0 <= t < k ==> s@[i + t] == lit@[t],
        decreases m - k,
    {
        if s.get_char(i + k) != lit.get_char(k) {
            proof {
                assert(s@.subrange(i as int, i as int + m as int)[k as int] == s@[i + k]);
            }
            return None;
        }
        k = k + 1;
    }
    proof {
        assert(s@.subrange(i as int, i as int + m as int) =~= lit@);
    }
    Some(i + m)
}

/// Finds the next quote character at or after position `i`, as `find_quote`
/// does.
fn scan_quote(s: &str, i: usize) -> (r: Option<usize>)
    requires
        i <= s@.len(),
    ensures
        match r {
            Some(j) => find_quote(s@, i as int) == Some(j as int) && i <= j < s@.len(),
            None => find_quote(s@, i as int) is None,
        },
{
    let n = s.unicode_len();
    let mut j: usize = i;
    while j < n
        invariant
            i <= j <= n,
            n == s@.len(),
            find_quote(s@, i as int) == find_quote(s@, j as int),
        decreases n - j,
    {
        if s.get_char(j) == '"' {
            return Some(j);
        }
        j = j + 1;
    }
    None
}

/// Finds the end of the digit run starting at `i`, as `digit_run_end` does.
fn scan_digits(s: &str, i: usize) -> (e: usize)
    requires
        i <= s@.len(),
    ensures
        e as int == digit_run_end(s@, i as int),
        i <= e <= s@.len(),
{
    let n = s.unicode_len();
    let mut j: usize = i;
    while j < n
        invariant
            i <= j <= n,
            n == s@.len(),
            digit_run_end(s@, i as int) == digit_run_end(s@, j as int),
        decreases n - j,
    {
        if digit_value(s.get_char(j)) >= 10 {
            return j;
        }
        j = j + 1;
    }
    j
}

/// Consumes a counter value at position `i`, as `take_num` does.
fn parse_u8_at(s: &str, i: usize) -> (r: Option<(u8, usize)>)
    requires
        i <= s@.len(),
    ensures
        match r {
            Some(p) => take_num(s@, i as int) == Some((p.0 as nat, p.1 as int)) && i < p.1
                <= s@.len(),
            None => take_num(s@, i as int) is None,
        },
{
    let e = scan_digits(s, i);
    if e == i {
        return None;
    }
    if e - i > 3 {
        return None;
    }
    proof {
        lemma_digit_run_range(s@, i as int);
    }
    let mut val: u32 = 0;
    let mut k: usize = i;
    while k < e
        invariant
            i <= k <= e <= s@.len(),
            e as int == digit_run_end(s@, i as int),
            e - i <= 3,
            forall|t: int| i <= t < e ==> is_digit(s@[t]),
            val as nat == digits_val(s@.subrange(i as int, k as int)),
            k == i ==> val == 0,
            k - i == 1 ==> val <= 9,
            k - i == 2 ==> val <= 99,
            k - i == 3 ==> val <= 999,
        decreases e - k,
    {
        let d = digit_value(s.get_char(k));
        val = val * 10 + d as u32;
        k = k + 1;
        proof {
            assert(s@.subrange(i as int, k as int).drop_last() =~= s@.subrange(
                i as int,
                k as int - 1,
            ));
            assert(s@.subrange(i as int, k as int).last() == s@[k as int - 1]);
        }
    }
    if val > 255 {
        return None;
    }
    Some((val as u8, e))
}

/// Consumes a boolean value at position `i`, as `take_bool` does.
fn parse_bool_at(s: &str, i: usize) -> (r: Option<(bool, usize)>)
    requires
        i <= s@.len(),
    ensures
        match r {
            Some(p) => take_bool(s@, i as int) == Some((p.0, p.1 as int)) && i < p.1 <= s@.len(),
            None => take_bool(s@, i as int) is None,
        },
{
    match expect_lit(s, i, "true") {
        Some(j) => {
            proof {
                reveal_strlit("true");
            }
            Some((true, j))
        },
        None => match expect_lit(s, i, "false") {
            Some(j) => {
                proof {
                    reveal_strlit("true");
                    reveal_strlit("false");
                }
                Some((false, j))
            },
            None => None,
        },
    }
}

/// The digit run in `[i, digit_run_end)` is made of digits and ends where a
/// non-digit or the end of the sequence stands.
proof fn lemma_digit_run_range(s: Seq<char>, i: int)
    requires
        0 <= i <= s.len(),
    ensures
        i <= digit_run_end(s, i) <= s.len(),
        forall|t: int| i <= t < digit_run_end(s, i) ==> is_digit(s[t]),
        digit_run_end(s, i) == s.len() || !is_digit(s[digit_run_end(s, i)]),
    decreases s.len() - i,
{
    if 0 <= i < s.len() && is_digit(s[i]) {
        lemma_digit_run_range(s, i + 1);
    }
}

// ---------------------------------------------------------------------------
// The round-trip law
// ---------------------------------------------------------------------------
proof fn lemma_take_lit_at(s: Seq<char>, i: int, lit: Seq<char>, rest: Seq<char>)
    requires
        0 <= i <= s.len(),
        s.subrange(i, s.len() as int) == lit + rest,
    ensures
        i + lit.len() <= s.len(),
        take_lit(s, i, lit) == Some(i + lit.len() as int),
        s.subrange(i + lit.len() as int, s.len() as int) == rest,
{
    assert(s.subrange(i, s.len() as int).len() == (lit + rest).len());
    assert((lit + rest).len() == lit.len() + rest.len());
    assert(s.subrange(i, i + lit.len() as int) =~= lit) by {
        assert forall|k: int| 0 <= k < lit.len() implies s.subrange(i, i + lit.len() as int)[k]
            == lit[k] by {
            assert(s.subrange(i, s.len() as int)[k] == (lit + rest)[k]);
            assert((lit + rest)[k] == lit[k]);
            assert(s.subrange(i, s.len() as int)[k] == s[k + i]);
            assert(s.subrange(i, i + lit.len() as int)[k] == s[k + i]);
        }
    }
    assert(s.subrange(i + lit.len() as int, s.len() as int) =~= rest) by {
        assert forall|k: int| 0 <= k < rest.len() implies s.subrange(
            i + lit.len() as int,
            s.len() as int,
        )[k] == rest[k] by {
            assert(s.subrange(i, s.len() as int)[lit.len() + k] == (lit + rest)[lit.len() + k]);
            assert((lit + rest)[lit.len() + k] == rest[k]);
            assert(s.subrange(i, s.len() as int)[lit.len() + k] == s[lit.len() + k + i]);
            assert(s.subrange(i + lit.len() as int, s.len() as int)[k] == s[k + i + lit.len()]);
        }
    }
}

proof fn lemma_find_quote_at(s: Seq<char>, i: int, j: int)
    requires
        0 <= i <= j < s.len(),
        forall|k: int| i <= k < j ==> s[k] != '"',
        s[j] == '"',
    ensures
        find_quote(s, i) == Some(j),
    decreases j - i,
{
    if i < j {
        lemma_find_quote_at(s, i + 1, j);
    }
}

proof fn lemma_take_str_at(s: Seq<char>, i: int, content: Seq<char>, rest: Seq<char>)
    requires
        0 <= i <= s.len(),
        s.subrange(i, s.len() as int) == content + rest,
        quote_free(content),
        rest.len() > 0,
        rest[0] == '"',
    ensures
        i + content.len() < s.len(),
        take_str(s, i) == Some((content, i + content.len() as int)),
        s.subrange(i + content.len() as int, s.len() as int) == rest,
{
    assert(s.subrange(i, s.len() as int).len() == (content + rest).len());
    assert((content + rest).len() == content.len() + rest.len());
    let j = i + content.len() as int;
    assert(s[j] == '"') by {
        assert(s.subrange(i, s.len() as int)[content.len() as int] == (content
            + rest)[content.len() as int]);
        assert((content + rest)[content.len() as int] == rest[0]);
        assert(s.subrange(i, s.len() as int)[content.len() as int] == s[content.len() + i]);
    }
    assert forall|k: int| i <= k < j implies s[k] != '"' by {
        assert(s.subrange(i, s.len() as int)[k - i] == (content + rest)[k - i]);
        assert((content + rest)[k - i] == content[k - i]);
        assert(s.subrange(i, s.len() as int)[k - i] == s[k - i + i]);
    }
    lemma_find_quote_at(s, i, j);
    assert(s.subrange(i, j) =~= content) by {
        assert forall|k: int| 0 <= k < content.len() implies s.subrange(i, j)[k] == content[k] by {
            assert(s.subrange(i, s.len() as int)[k] == (content + rest)[k]);
            assert((content + rest)[k] == content[k]);
            assert(s.subrange(i, s.len() as int)[k] == s[k + i]);
            assert(s.subrange(i, j)[k] == s[k + i]);
        }
    }
    assert(s.subrange(j, s.len() as int) =~= rest) by {
        assert forall|k: int| 0 <= k < rest.len() implies s.subrange(j, s.len() as int)[k]
            == rest[k] by {
            assert(s.subrange(i, s.len() as int)[content.len() + k] == (content
                + rest)[content.len() + k]);
            assert((content + rest)[content.len() + k] == rest[k]);
            assert(s.subrange(i, s.len() as int)[content.len() + k] == s[content.len() + k + i]);
            assert(s.subrange(j, s.len() as int)[k] == s[k + j]);
        }
    }
}

proof fn lemma_dec_str_digits(n: nat)
    ensures
        dec_str(n).len() >= 1,
        forall|k: int| 0 <= k < dec_str(n).len() ==> is_digit(#[trigger] dec_str(n)[k]),
    decreases n,
{
    if n >= 10 {
        lemma_dec_str_digits(n / 10);
        assert forall|k: int| 0 <= k < dec_str(n).len() implies is_digit(
            #[trigger] dec_str(n)[k],
        ) by {
            if k < dec_str(n / 10).len() {
                assert(dec_str(n)[k] == dec_str(n / 10)[k]);
            } else {
                assert(dec_str(n)[k] == digit_char(n % 10));
            }
        }
    }
}

proof fn lemma_dec_str_len_small(n: nat)
    requires
        n < 256,
    ensures
        dec_str(n).len() <= 3,
{
    if n < 10 {
        assert(dec_str(n).len() == 1);
    } else if n < 100 {
        assert(n / 10 < 10);
        assert(dec_str(n / 10).len() == 1);
        assert(dec_str(n).len() == dec_str(n / 10).len() + 1);
    } else {
        assert(10 <= n / 10 < 26);
        assert(n / 10 / 10 < 10);
        assert(dec_str(n / 10 / 10).len() == 1);
        assert(dec_str(n / 10).len() == dec_str(n / 10 / 10).len() + 1);
        assert(dec_str(n).len() == dec_str(n / 10).len() + 1);
    }
}

proof fn lemma_digits_val_dec_str(n: nat)
    ensures
        digits_val(dec_str(n)) == n,
    decreases n,
{
    if n < 10 {
        let ds = dec_str(n);
        assert(ds == seq![digit_char(n)]);
        assert(ds.len() == 1);
        assert(ds.drop_last() =~= Seq::<char>::empty());
        assert(digits_val(Seq::<char>::empty()) == 0);
        assert(ds.last() == digit_char(n));
        assert(digits_val(ds) == digits_val(ds.drop_last()) * 10 + digit_val(ds.last()));
        assert(digit_val(digit_char(n)) == n);
    } else {
        lemma_digits_val_dec_str(n / 10);
        let ds = dec_str(n);
        assert(ds == dec_str(n / 10) + seq![digit_char(n % 10)]);
        assert(ds.len() == dec_str(n / 10).len() + 1);
        assert(ds.drop_last() =~= dec_str(n / 10));
        assert(ds.last() == digit_char(n % 10));
        assert(digits_val(ds) == digits_val(ds.drop_last()) * 10 + digit_val(ds.last()));
        assert(digit_val(digit_char(n % 10)) == n % 10);
        assert((n / 10) * 10 + n % 10 == n);
    }
}

proof fn lemma_digit_run_exact(s: Seq<char>, i: int, j: int)
    requires
        0 <= i <= j <= s.len(),
        forall|k: int| i <= k < j ==> is_digit(s[k]),
        j == s.len() || !is_digit(s[j]),
    ensures
        digit_run_end(s, i) == j,
    decreases j - i,
{
    if i < j {
        lemma_digit_run_exact(s, i + 1, j);
    }
}

proof fn lemma_take_num_at(s: Seq<char>, i: int, n: nat, rest: Seq<char>)
    requires
        0 <= i <= s.len(),
        n < 256,
        s.subrange(i, s.len() as int) == dec_str(n) + rest,
        rest.len() > 0,
        !is_digit(rest[0]),
    ensures
        i + dec_str(n).len() <= s.len(),
        take_num(s, i) == Some((n, i + dec_str(n).len() as int)),
        s.subrange(i + dec_str(n).len() as int, s.len() as int) == rest,
{
    lemma_dec_str_digits(n);
    lemma_dec_str_len_small(n);
    lemma_digits_val_dec_str(n);
    assert(s.subrange(i, s.len() as int).len() == (dec_str(n) + rest).len());
    assert((dec_str(n) + rest).len() == dec_str(n).len() + rest.len());
    let e = i + dec_str(n).len() as int;
    assert forall|k: int| i <= k < e implies is_digit(s[k]) by {
        assert(s.subrange(i, s.len() as int)[k - i] == (dec_str(n) + rest)[k - i]);
        assert((dec_str(n) + rest)[k - i] == dec_str(n)[k - i]);
        assert(s.subrange(i, s.len() as int)[k - i] == s[k - i + i]);
    }
    assert(!is_digit(s[e])) by {
        assert(s.subrange(i, s.len() as int)[dec_str(n).len() as int] == (dec_str(n)
            + rest)[dec_str(n).len() as int]);
        assert((dec_str(n) + rest)[dec_str(n).len() as int] == rest[0]);
        assert(s.subrange(i, s.len() as int)[dec_str(n).len() as int] == s[dec_str(n).len() + i]);
    }
    lemma_digit_run_exact(s, i, e);
    assert(s.subrange(i, e) =~= dec_str(n)) by {
        assert forall|k: int| 0 <= k < dec_str(n).len() implies s.subrange(i, e)[k] == dec_str(
            n,
        )[k] by {
            assert(s.subrange(i, s.len() as int)[k] == (dec_str(n) + rest)[k]);
            assert((dec_str(n) + rest)[k] == dec_str(n)[k]);
            assert(s.subrange(i, s.len() as int)[k] == s[k + i]);
            assert(s.subrange(i, e)[k] == s[k + i]);
        }
    }
    assert(s.subrange(e, s.len() as int) =~= rest) by {
        assert forall|k: int| 0 <= k < rest.len() implies s.subrange(e, s.len() as int)[k]
            == rest[k] by {
            assert(s.subrange(i, s.len() as int)[dec_str(n).len() + k] == (dec_str(n)
                + rest)[dec_str(n).len() + k]);
            assert((dec_str(n) + rest)[dec_str(n).len() + k] == rest[k]);
            assert(s.subrange(i, s.len() as int)[dec_str(n).len() + k] == s[dec_str(n).len() + k
                + i]);
            assert(s.subrange(e, s.len() as int)[k] == s[k + e]);
        }
    }
}

proof fn lemma_take_bool_at(s: Seq<char>, i: int, b: bool, rest: Seq<char>)
    requires
        0 <= i <= s.len(),
        s.subrange(i, s.len() as int) == bool_str(b) + rest,
    ensures
        i + bool_str(b).len() <= s.len(),
        take_bool(s, i) == Some((b, i + bool_str(b).len() as int)),
        s.subrange(i + bool_str(b).len() as int, s.len() as int) == rest,
{
    reveal_strlit("true");
    reveal_strlit("false");
    lemma_take_lit_at(s, i, bool_str(b), rest);
    if !b {
        if match_lit(s, i, "true"@) {
            assert(s[i] == 't') by {
                assert(s.subrange(i, i + 4)[0] == s[i]);
            }
            assert(s[i] == 'f') by {
                assert(s.subrange(i, i + 5)[0] == s[i]);
            }
            assert(false);
        }
    }
}

/// Law: a state whose timestamps are quote-free and whose counters fit the
/// counter fields reads back from its own wire form, field for field.
proof fn lemma_parse_of_takes(
    s: Seq<char>,
    v: StateView,
    i1: int,
    j1: int,
    i2: int,
    j2: int,
    i3: int,
    i4: int,
    i5: int,
    i6: int,
    i7: int,
    i8: int,
    i9: int,
    i10: int,
    i11: int,
    i12: int,
    i13: int,
)
    requires
        take_lit(s, 0, lit_head()) == Some(i1),
        take_str(s, i1) == Some((v.start_date_time, j1)),
        take_lit(s, j1, lit_after_start()) == Some(i2),
        take_str(s, i2) == Some((v.break_date_time, j2)),
        take_lit(s, j2, lit_after_break()) == Some(i3),
        take_num(s, i3) == Some((v.work_count, i4)),
        take_lit(s, i4, lit_before_break_count()) == Some(i5),
        take_num(s, i5) == Some((v.break_count, i6)),
        take_lit(s, i6, lit_before_working()) == Some(i7),
        take_bool(s, i7) == Some((v.working, i8)),
        take_lit(s, i8, lit_before_on_break()) == Some(i9),
        take_bool(s, i9) == Some((v.on_break, i10)),
        take_lit(s, i10, lit_before_on_long_break()) == Some(i11),
        take_bool(s, i11) == Some((v.on_long_break, i12)),
        take_lit(s, i12, lit_tail()) == Some(i13),
        i13 == s.len(),
    ensures
        spec_parse(s) == Some(v),
{
}

#[verifier::spinoff_prover]
#[verifier::rlimit(100)]
pub proof fn lemma_encode_parse_round_trip(v: StateView)
    requires
        serializable(v),
    ensures
        spec_parse(spec_encode(v)) == Some(v),
{
    reveal_strlit("\",\"break_date_time\":\"");
    reveal_strlit("\",\"work_count\":");
    reveal_strlit(",\"break_count\":");
    reveal_strlit(",\"working\":");
    let s = spec_encode(v);
    let r14 = bool_str(v.on_long_break) + lit_tail();
    let r13 = lit_before_on_long_break() + r14;
    let r12 = bool_str(v.on_break) + r13;
    let r11 = lit_before_on_break() + r12;
    let r10 = bool_str(v.working) + r11;
    let r9 = lit_before_working() + r10;
    let r8 = dec_str(v.break_count) + r9;
    let r7 = lit_before_break_count() + r8;
    let r6 = dec_str(v.work_count) + r7;
    let r5 = lit_after_break() + r6;
    let r4 = v.break_date_time + r5;
    let r3 = lit_after_start() + r4;
    let r2 = v.start_date_time + r3;
    assert(s == lit_head() + r2);
    assert(s.subrange(0, s.len() as int) =~= s);
    lemma_take_lit_at(s, 0, lit_head(), r2);
    let i1 = lit_head().len() as int;
    lemma_take_str_at(s, i1, v.start_date_time, r3);
    let j1 = i1 + v.start_date_time.len() as int;
    lemma_take_lit_at(s, j1, lit_after_start(), r4);
    let i2 = j1 + lit_after_start().len() as int;
    lemma_take_str_at(s, i2, v.break_date_time, r5);
    let j2 = i2 + v.break_date_time.len() as int;
    lemma_take_lit_at(s, j2, lit_after_break(), r6);
    let i3 = j2 + lit_after_break().len() as int;
    lemma_take_num_at(s, i3, v.work_count, r7);
    let i4 = i3 + dec_str(v.work_count).len() as int;
    lemma_take_lit_at(s, i4, lit_before_break_count(), r8);
    let i5 = i4 + lit_before_break_count().len() as int;
    lemma_take_num_at(s, i5, v.break_count, r9);
    let i6 = i5 + dec_str(v.break_count).len() as int;
    lemma_take_lit_at(s, i6, lit_before_working(), r10);
    let i7 = i6 + lit_before_working().len() as int;
    lemma_take_bool_at(s, i7, v.working, r11);
    let i8 = i7 + bool_str(v.working).len() as int;
    lemma_take_lit_at(s, i8, lit_before_on_break(), r12);
    let i9 = i8 + lit_before_on_break().len() as int;
    lemma_take_bool_at(s, i9, v.on_break, r13);
    let i10 = i9 + bool_str(v.on_break).len() as int;
    lemma_take_lit_at(s, i10, lit_before_on_long_break(), r14);
    let i11 = i10 + lit_before_on_long_break().len() as int;
    lemma_take_bool_at(s, i11, v.on_long_break, lit_tail());
    let i12 = i11 + bool_str(v.on_long_break).len() as int;
    assert(s.subrange(i12, s.len() as int) == lit_tail() + Seq::<char>::empty()) by {
        assert(lit_tail() + Seq::<char>::empty() =~= lit_tail());
    }
    lemma_take_lit_at(s, i12, lit_tail(), Seq::<char>::empty());
    let i13 = i12 + lit_tail().len() as int;
    assert(i13 == s.len()) by {
        assert(s.subrange(i13, s.len() as int).len() == 0);
    }
    lemma_parse_of_takes(s, v, i1, j1, i2, j2, i3, i4, i5, i6, i7, i8, i9, i10, i11, i12, i13);
}

proof fn lemma_find_quote_first(s: Seq<char>, i: int)
    requires
        0 <= i,
    ensures
        find_quote(s, i) matches Some(j) ==> i <= j < s.len() && s[j] == '"' && (forall|k: int|
            i <= k < j ==> s[k] != '"'),
    decreases s.len() - i,
{
    if i < s.len() && s[i] != '"' {
        lemma_find_quote_first(s, i + 1);
    }
}

/// Law: a state that the reader accepts can itself be written back, so a
/// stored state stays stable across any number of read-write cycles.
#[verifier::rlimit(100)]
pub proof fn lemma_parse_serializable(s: Seq<char>, v: StateView)
    requires
        spec_parse(s) == Some(v),
    ensures
        serializable(v),
{
    let i1 = take_lit(s, 0, lit_head())->Some_0;
    assert(take_lit(s, 0, lit_head()) is Some);
    let j1 = take_str(s, i1)->Some_0.1;
    assert(take_str(s, i1) is Some);
    assert(v.start_date_time == s.subrange(i1, j1));
    lemma_find_quote_first(s, i1);
    assert(quote_free(v.start_date_time)) by {
        assert forall|k: int| 0 <= k < v.start_date_time.len() implies v.start_date_time[k]
            != '"' by {
            assert(s.subrange(i1, j1)[k] == s[k + i1]);
        }
    }
    let i2 = take_lit(s, j1, lit_after_start())->Some_0;
    assert(take_lit(s, j1, lit_after_start()) is Some);
    let j2 = take_str(s, i2)->Some_0.1;
    assert(take_str(s, i2) is Some);
    assert(v.break_date_time == s.subrange(i2, j2));
    lemma_find_quote_first(s, i2);
    assert(quote_free(v.break_date_time)) by {
        assert forall|k: int| 0 <= k < v.break_date_time.len() implies v.break_date_time[k]
            != '"' by {
            assert(s.subrange(i2, j2)[k] == s[k + i2]);
        }
    }
    let i3 = take_lit(s, j2, lit_after_break())->Some_0;
    assert(take_num(s, i3) is Some);
    assert(v.work_count < 256);
    let i4 = take_num(s, i3)->Some_0.1;
    let i5 = take_lit(s, i4, lit_before_break_count())->Some_0;
    assert(take_num(s, i5) is Some);
    assert(v.break_count < 256);
}

proof fn seq_assoc(a: Seq<char>, b: Seq<char>, c: Seq<char>)
    ensures
        a + b + c == a + (b + c),
{
    assert(a + b + c =~= a + (b + c));
}

impl Pomodoro {
    /// The wire form of this state.
    pub fn encode(&self) -> (r: String)
        ensures
            r@ == spec_encode(self@),
    {
        let ghost v = self@;
        let mut r = String::new();
        r.append("{\"start_date_time\":\"");
        r.append(self.start_date_time.as_str());
        let ghost g2 = r@;
        r.append("\",\"break_date_time\":\"");
        let ghost g3 = r@;
        r.append(self.break_date_time.as_str());
        let ghost g4 = r@;
        r.append("\",\"work_count\":");
        let ghost g5 = r@;
        push_dec(&mut r, self.work_count as u64);
        let ghost g6 = r@;
        r.append(",\"break_count\":");
        let ghost g7 = r@;
        push_dec(&mut r, self.break_count as u64);
        let ghost g8 = r@;
        r.append(",\"working\":");
        let ghost g9 = r@;
        r.append(if self.working {
            "true"
        } else {
            "false"
        });
        let ghost g10 = r@;
        r.append(",\"on_break\":");
        let ghost g11 = r@;
        r.append(if self.on_break {
            "true"
        } else {
            "false"
        });
        let ghost g12 = r@;
        r.append(",\"on_long_break\":");
        let ghost g13 = r@;
        r.append(if self.on_long_break {
            "true"
        } else {
            "false"
        });
        let ghost g14 = r@;
        r.append("}");
        proof {
            let s14 = bool_str(v.on_long_break) + lit_tail();
            seq_assoc(g13, bool_str(v.on_long_break), lit_tail());
            let s13 = lit_before_on_long_break() + s14;
            seq_assoc(g12, lit_before_on_long_break(), s14);
            let s12 = bool_str(v.on_break) + s13;
            seq_assoc(g11, bool_str(v.on_break), s13);
            let s11 = lit_before_on_break() + s12;
            seq_assoc(g10, lit_before_on_break(), s12);
            let s10 = bool_str(v.working) + s11;
            seq_assoc(g9, bool_str(v.working), s11);
            let s9 = lit_before_working() + s10;
            seq_assoc(g8, lit_before_working(), s10);
            let s8 = dec_str(v.break_count) + s9;
            seq_assoc(g7, dec_str(v.break_count), s9);
            let s7 = lit_before_break_count() + s8;
            seq_assoc(g6, lit_before_break_count(), s8);
            let s6 = dec_str(v.work_count) + s7;
            seq_assoc(g5, dec_str(v.work_count), s7);
            let s5 = lit_after_break() + s6;
            seq_assoc(g4, lit_after_break(), s6);
            let s4 = v.break_date_time + s5;
            seq_assoc(g3, v.break_date_time, s5);
            let s3 = lit_after_start() + s4;
            seq_assoc(g2, lit_after_start(), s4);
            let s2 = v.start_date_time + s3;
            seq_assoc(lit_head(), v.start_date_time, s3);
            assert(r@ == lit_head() + s2);
            assert(r@ == spec_encode(v));
        }
        r
    }

    /// Reads a state back from its wire form: exactly what `spec_parse`
    /// makes of the text.
    pub fn parse(s: &str) -> (r: Option<Pomodoro>)
        ensures
            match r {
                Some(q) => spec_parse(s@) == Some(q@),
                None => spec_parse(s@) is None,
            },
    {
        let i1 = match expect_lit(s, 0, "{\"start_date_time\":\"") {
            Some(j) => j,
            None => {
                return None;
            },
        };
        let j1 = match scan_quote(s, i1) {
            Some(j) => j,
            None => {
                return None;
            },
        };
        let sdt = String::from_str(s.substring_char(i1, j1));
        let i2 = match expect_lit(s, j1, "\",\"break_date_time\":\"") {
            Some(j) => j,
            None => {
                return None;
            },
        };
        let j2 = match scan_quote(s, i2) {
            Some(j) => j,
            None => {
                return None;
            },
        };
        let bdt = String::from_str(s.substring_char(i2, j2));
        let i3 = match expect_lit(s, j2, "\",\"work_count\":") {
            Some(j) => j,
            None => {
                return None;
            },
        };
        let (wc, i4) = match parse_u8_at(s, i3) {
            Some(p) => p,
            None => {
                return None;
            },
        };
        let i5 = match expect_lit(s, i4, ",\"break_count\":") {
            Some(j) => j,
            None => {
                return None;
            },
        };
        let (bc, i6) = match parse_u8_at(s, i5) {
            Some(p) => p,
            None => {
                return None;
            },
        };
        let i7 = match expect_lit(s, i6, ",\"working\":") {
            Some(j) => j,
            None => {
                return None;
            },
        };
        let (w, i8) = match parse_bool_at(s, i7) {
            Some(p) => p,
            None => {
                return None;
            },
        };
        let i9 = match expect_lit(s, i8, ",\"on_break\":") {
            Some(j) => j,
            None => {
                return None;
            },
        };
        let (ob, i10) = match parse_bool_at(s, i9) {
            Some(p) => p,
            None => {
                return None;
            },
        };
        let i11 = match expect_lit(s, i10, ",\"on_long_break\":") {
            Some(j) => j,
            None => {
                return None;
            },
        };
        let (olb, i12) = match parse_bool_at(s, i11) {
            Some(p) => p,
            None => {
                return None;
            },
        };
        let i13 = match expect_lit(s, i12, "}") {
            Some(j) => j,
            None => {
                return None;
            },
        };
        if i13 != s.unicode_len() {
            return None;
        }
        let q = Pomodoro {
            start_date_time: sdt,
            break_date_time: bdt,
            work_count: wc,
            break_count: bc,
            working: w,
            on_break: ob,
            on_long_break: olb,
        };
        Some(q)
    }
}

} // verus!
