//! The structured form of a barcode: a document of print height, module
//! width and modules, its JSON text, and the decoder of that text.

use vstd::prelude::*;
use barcoders::generators::json::JSON;
use crate::error::BarcodeError;
use crate::symbology::{is_module_train, ModuleTrain};
use crate::text::chars_of;

verus! {

/// A barcode as structured data.
#[derive(Debug)]
pub struct Barcode {
    /// The print height, in units of the caller's choice; at least 1.
    pub height: u32,
    /// The width of the narrowest module; at least 1.
    pub xdim: u32,
    /// The modules, one byte each.
    pub encoding: Vec<u8>,
}

impl Barcode {
    /// The modules of the document as a train, or the format error if they
    /// have not the shape of one.
    pub fn into_train(self) -> (r: Result<ModuleTrain, BarcodeError>)
        ensures
            match r {
                Ok(train) => train@ == self.encoding@ && is_module_train(self.encoding@),
                Err(e) => e == BarcodeError::Format && !is_module_train(self.encoding@),
            },
    {
        match ModuleTrain::from_modules(self.encoding) {
            Some(train) => Ok(train),
            None => Err(BarcodeError::Format),
        }
    }
}

/// Whether `c` is a decimal digit.
pub open spec fn is_digit(c: char) -> bool {
    '0' <= c <= '9'
}

/// The digit character of `d`, for `d` from 0 to 9.
pub open spec fn digit_char(d: int) -> char {
    (d + 48) as char
}

/// The value of a digit character.
pub open spec fn digit_value(c: char) -> int {
    c as int - 48
}

/// The decimal numeral of `n`, without leading zeros.
pub open spec fn decimal(n: nat) -> Seq<char>
    decreases n,
{
    if n < 10 {
        seq![digit_char(n as int)]
    } else {
        decimal(n / 10).push(digit_char((n % 10) as int))
    }
}

/// The decimal numerals of the values of `v`, separated by commas.
pub open spec fn comma_separated(v: Seq<u8>) -> Seq<char>
    decreases v.len(),
{
    if v.len() == 0 {
        Seq::empty()
    } else if v.len() == 1 {
        decimal(v[0] as nat)
    } else {
        decimal(v[0] as nat) + seq![','] + comma_separated(v.drop_first())
    }
}

/// The JSON text of a document: an object of the three members `height`,
/// `xdim` and `encoding`, in this order and without white space.
pub open spec fn document_text(height: nat, xdim: nat, encoding: Seq<u8>) -> Seq<char> {
    "{\"height\":"@ + decimal(height) + ",\"xdim\":"@ + decimal(xdim) + ",\"encoding\":["@
        + comma_separated(encoding) + "]}"@
}

/// The value of a sequence of digits read as a decimal numeral.
pub open spec fn value_of(s: Seq<char>) -> nat
    decreases s.len(),
{
    if s.len() == 0 {
        0
    } else {
        (value_of(s.drop_last()) * 10 + digit_value(s.last())) as nat
    }
}

/// Whether `s` is a decimal numeral without leading zeros.
pub open spec fn is_numeral(s: Seq<char>) -> bool {
    &&& s.len() >= 1
    &&& forall|i: int| 0 <= i < s.len() ==> is_digit(#[trigger] s[i])
    &&& s.len() >= 2 ==> s[0] != '0'
}

/// Where the run of digits that starts at `pos` ends.
spec fn run_end(t: Seq<char>, pos: int) -> int
    decreases t.len() - pos,
{
    if 0 <= pos < t.len() && is_digit(t[pos]) {
        run_end(t, pos + 1)
    } else {
        pos
    }
}

/// The decimal numeral of a number is a numeral of that value.
pub proof fn lemma_decimal_is_numeral(n: nat)
    ensures
        is_numeral(decimal(n)),
        value_of(decimal(n)) == n,
        n >= 1 ==> decimal(n)[0] != '0',
    decreases n,
{
    if n < 10 {
        let s = decimal(n);
        assert(s.drop_last() =~= Seq::<char>::empty());
        assert(value_of(s.drop_last()) == 0);
    } else {
        lemma_decimal_is_numeral(n / 10);
        let head = decimal(n / 10);
        let s = decimal(n);
        assert(s.drop_last() =~= head);
        assert(s[0] == head[0]);
    }
}

/// A numeral is the decimal numeral of its value.
pub proof fn lemma_numeral_is_decimal(s: Seq<char>)
    requires
        is_numeral(s),
    ensures
        decimal(value_of(s)) == s,
    decreases s.len(),
{
    let front = s.drop_last();
    if s.len() == 1 {
        assert(front =~= Seq::<char>::empty());
        assert(value_of(front) == 0);
        assert(is_digit(s[0]));
        assert(decimal(value_of(s)) =~= s);
    } else {
        assert(front[0] == s[0]);
        assert forall|i: int| 0 <= i < front.len() implies is_digit(#[trigger] front[i]) by {
            assert(front[i] == s[i]);
        }
        if front.len() == 1 {
            assert(front.drop_last() =~= Seq::<char>::empty());
            assert(value_of(front.drop_last()) == 0);
            assert(is_digit(front[0]));
            assert(value_of(front) >= 1);
        } else {
            lemma_leading_digit(front);
        }
        lemma_numeral_is_decimal(front);
        assert(is_digit(s[s.len() - 1]));
        let v = value_of(s);
        assert(v == value_of(front) * 10 + digit_value(s.last()));
        assert(v / 10 == value_of(front) && v % 10 == digit_value(s.last()));
        assert(decimal(v) =~= s);
    }
}

proof fn lemma_leading_digit(s: Seq<char>)
    requires
        s.len() >= 1,
        forall|i: int| 0 <= i < s.len() ==> is_digit(#[trigger] s[i]),
        s[0] != '0',
    ensures
        value_of(s) >= 1,
    decreases s.len(),
{
    let front = s.drop_last();
    assert(is_digit(s[0]));
    assert(is_digit(s[s.len() - 1]));
    if s.len() == 1 {
        assert(front =~= Seq::<char>::empty());
        assert(value_of(front) == 0);
    } else {
        assert(front[0] == s[0]);
        assert forall|i: int| 0 <= i < front.len() implies is_digit(#[trigger] front[i]) by {
            assert(front[i] == s[i]);
        }
        lemma_leading_digit(front);
    }
}

proof fn lemma_value_grows(s: Seq<char>, k: int)
    requires
        0 <= k <= s.len(),
        forall|i: int| 0 <= i < s.len() ==> is_digit(#[trigger] s[i]),
    ensures
        value_of(s.take(k)) <= value_of(s),
    decreases s.len() - k,
{
    if k == s.len() {
        assert(s.take(k) =~= s);
    } else {
        let front = s.drop_last();
        assert forall|i: int| 0 <= i < front.len() implies is_digit(#[trigger] front[i]) by {
            assert(front[i] == s[i]);
        }
        lemma_value_grows(front, k);
        assert(front.take(k) =~= s.take(k));
        assert(is_digit(s[s.len() - 1]));
    }
}

proof fn lemma_run_end(t: Seq<char>, pos: int)
    requires
        0 <= pos <= t.len(),
    ensures
        pos <= run_end(t, pos) <= t.len(),
        forall|i: int| pos <= i < run_end(t, pos) ==> is_digit(#[trigger] t[i]),
        run_end(t, pos) < t.len() ==> !is_digit(t[run_end(t, pos)]),
    decreases t.len() - pos,
{
    if pos < t.len() && is_digit(t[pos]) {
        lemma_run_end(t, pos + 1);
    }
}

proof fn lemma_run_end_unique(t: Seq<char>, pos: int, end: int)
    requires
        0 <= pos <= end <= t.len(),
        forall|i: int| pos <= i < end ==> is_digit(#[trigger] t[i]),
        end < t.len() ==> !is_digit(t[end]),
    ensures
        run_end(t, pos) == end,
    decreases end - pos,
{
    if pos < end {
        assert(is_digit(t[pos]));
        lemma_run_end_unique(t, pos + 1, end);
    }
}

/// What scanning a number at `pos` gives: the value of the run of digits that
/// starts there and the place behind it, if the run is a numeral of a value
/// up to `max`.
spec fn scan_number(t: Seq<char>, pos: int, max: nat) -> Option<(nat, int)> {
    let end = run_end(t, pos);
    let run = t.subrange(pos, end);
    if is_numeral(run) && value_of(run) <= max {
        Some((value_of(run), end))
    } else {
        None
    }
}

fn is_digit_char(c: char) -> (b: bool)
    ensures
        b == is_digit(c),
{
    let n: u32 = c as u32;
    48 <= n && n <= 57
}

/// Reads the number that starts at `pos`.
fn parse_number(t: &Vec<char>, pos: usize, max: u64) -> (r: Option<(u64, usize)>)
    requires
        pos <= t.len(),
        max <= u32::MAX,
    ensures
        match r {
            Some((v, end)) => scan_number(t@, pos as int, max as nat) == Some(
                (v as nat, end as int),
            ) && pos < end <= t.len(),
            None => scan_number(t@, pos as int, max as nat) is None,
        },
{
    let n = t.len();
    proof {
        lemma_run_end(t@, pos as int);
    }
    if pos >= n || !is_digit_char(t[pos]) {
        proof {
            assert(t@.subrange(pos as int, pos as int).len() == 0);
        }
        return None;
    }
    let first = t[pos];
    if first == '0' {
        proof {
            lemma_run_end(t@, pos as int + 1);
        }
        if pos + 1 < n && is_digit_char(t[pos + 1]) {
            proof {
                let run = t@.subrange(pos as int, run_end(t@, pos as int));
                assert(run_end(t@, pos as int + 1) == run_end(t@, pos as int + 2));
                lemma_run_end(t@, pos as int + 2);
                assert(run.len() >= 2);
                assert(run[0] == '0');
            }
            return None;
        }
        proof {
            let run = t@.subrange(pos as int, pos as int + 1);
            assert(run_end(t@, pos as int) == pos + 1);
            assert(run =~= seq!['0']);
            assert(run.drop_last() =~= Seq::<char>::empty());
            assert(value_of(run.drop_last()) == 0);
            assert(value_of(run) == 0);
        }
        return Some((0, pos + 1));
    }
    let mut acc: u64 = (first as u32 - 48) as u64;
    let mut i: usize = pos + 1;
    proof {
        let one = t@.subrange(pos as int, pos as int + 1);
        assert(one.drop_last() =~= Seq::<char>::empty());
        assert(value_of(one.drop_last()) == 0);
        assert(value_of(one) == acc);
    }
    if acc > max {
        proof {
            let end = run_end(t@, pos as int);
            let run = t@.subrange(pos as int, end);
            assert(run.take(1) =~= t@.subrange(pos as int, pos as int + 1));
            lemma_value_grows(run, 1);
        }
        return None;
    }
    while i < n && is_digit_char(t[i])
        invariant
            pos < i <= n,
            n == t.len(),
            max <= u32::MAX,
            acc <= max,
            t@[pos as int] != '0',
            forall|j: int| pos <= j < i ==> is_digit(#[trigger] t@[j]),
            run_end(t@, pos as int) == run_end(t@, i as int),
            acc == value_of(t@.subrange(pos as int, i as int)),
        decreases n - i,
    {
        let d: u64 = (t[i] as u32 - 48) as u64;
        proof {
            let next = t@.subrange(pos as int, i as int + 1);
            assert(next.drop_last() =~= t@.subrange(pos as int, i as int));
            assert(value_of(next) == acc * 10 + d);
        }
        acc = acc * 10 + d;
        i += 1;
        if acc > max {
            proof {
                lemma_run_end(t@, i as int);
                lemma_run_end(t@, pos as int);
                let end = run_end(t@, pos as int);
                let run = t@.subrange(pos as int, end);
                assert(run.take(i - pos) =~= t@.subrange(pos as int, i as int));
                lemma_value_grows(run, i - pos);
            }
            return None;
        }
    }
    proof {
        let run = t@.subrange(pos as int, i as int);
        assert(run_end(t@, i as int) == i);
        assert(run[0] == t@[pos as int]);
        assert forall|j: int| 0 <= j < run.len() implies is_digit(#[trigger] run[j]) by {
            assert(run[j] == t@[pos + j]);
        }
    }
    Some((acc, i))
}

/// Whether the characters `lit` stand in `t` from `pos` on.
spec fn at(t: Seq<char>, pos: int, lit: Seq<char>) -> bool {
    &&& 0 <= pos
    &&& pos + lit.len() <= t.len()
    &&& t.subrange(pos, pos + lit.len()) == lit
}

/// What scanning a list of numbers at `pos` gives: the values, each up to
/// 255, of the numerals that commas separate, and the place behind the last.
spec fn scan_list(t: Seq<char>, pos: int) -> Option<(Seq<u8>, int)>
    decreases t.len() - pos,
{
    match scan_number(t, pos, 255) {
        None => None,
        Some((v, end)) => {
            if pos < end && end < t.len() && t[end] == ',' {
                match scan_list(t, end + 1) {
                    None => None,
                    Some((rest, stop)) => Some((seq![v as u8] + rest, stop)),
                }
            } else {
                Some((seq![v as u8], end))
            }
        },
    }
}

/// `values` in front of what a scan of the rest gives.
spec fn glue(values: Seq<u8>, rest: Option<(Seq<u8>, int)>) -> Option<(Seq<u8>, int)> {
    match rest {
        None => None,
        Some((more, stop)) => Some((values + more, stop)),
    }
}

/// What scanning a whole text gives: height, module width and modules, if the
/// text is a document.
spec fn scan_document(t: Seq<char>) -> Option<(nat, nat, Seq<u8>)> {
    let head = "{\"height\":"@;
    let mid1 = ",\"xdim\":"@;
    let mid2 = ",\"encoding\":["@;
    let tail = "]}"@;
    if !at(t, 0, head) {
        None
    } else {
        match scan_number(t, head.len() as int, u32::MAX as nat) {
            None => None,
            Some((h, height_end)) => {
                if h < 1 || !at(t, height_end, mid1) {
                    None
                } else {
                    match scan_number(t, height_end + mid1.len(), u32::MAX as nat) {
                        None => None,
                        Some((x, xdim_end)) => {
                            if x < 1 || !at(t, xdim_end, mid2) {
                                None
                            } else {
                                let list_at = xdim_end + mid2.len();
                                if at(t, list_at, tail) {
                                    if list_at + tail.len() == t.len() {
                                        Some((h, x, Seq::empty()))
                                    } else {
                                        None
                                    }
                                } else {
                                    match scan_list(t, list_at) {
                                        None => None,
                                        Some((e, list_end)) => {
                                            if at(t, list_end, tail) && list_end + tail.len() == t.len() {
                                                Some((h, x, e))
                                            } else {
                                                None
                                            }
                                        },
                                    }
                                }
                            }
                        },
                    }
                }
            },
        }
    }
}

proof fn lemma_scan_number_sound(t: Seq<char>, pos: int, max: nat)
    requires
        0 <= pos <= t.len(),
        scan_number(t, pos, max) is Some,
    ensures
        ({
            let (v, end) = scan_number(t, pos, max)->0;
            &&& pos < end <= t.len()
            &&& v <= max
            &&& t.subrange(pos, end) == decimal(v)
        }),
{
    lemma_run_end(t, pos);
    lemma_numeral_is_decimal(t.subrange(pos, run_end(t, pos)));
}

proof fn lemma_scan_number_complete(t: Seq<char>, pos: int, max: nat, v: nat)
    requires
        0 <= pos,
        v <= max,
        pos + decimal(v).len() <= t.len(),
        t.subrange(pos, pos + decimal(v).len()) == decimal(v),
        pos + decimal(v).len() < t.len() ==> !is_digit(t[pos + decimal(v).len()]),
    ensures
        scan_number(t, pos, max) == Some((v, pos + decimal(v).len())),
{
    let d = decimal(v);
    lemma_decimal_is_numeral(v);
    let end = pos + d.len();
    assert forall|i: int| pos <= i < end implies is_digit(#[trigger] t[i]) by {
        assert(t.subrange(pos, end)[i - pos] == t[i]);
        assert(is_digit(d[i - pos]));
    }
    lemma_run_end_unique(t, pos, end);
}

proof fn lemma_scan_list_sound(t: Seq<char>, pos: int)
    requires
        0 <= pos <= t.len(),
        scan_list(t, pos) is Some,
    ensures
        ({
            let (e, stop) = scan_list(t, pos)->0;
            &&& e.len() >= 1
            &&& pos < stop <= t.len()
            &&& t.subrange(pos, stop) == comma_separated(e)
        }),
    decreases t.len() - pos,
{
    lemma_scan_number_sound(t, pos, 255);
    let (v, end) = scan_number(t, pos, 255)->0;
    if pos < end && end < t.len() && t[end] == ',' {
        lemma_scan_list_sound(t, end + 1);
        let (rest, stop) = scan_list(t, end + 1)->0;
        let e = seq![v as u8] + rest;
        assert(e.drop_first() =~= rest);
        assert(e[0] == v);
        assert(t.subrange(pos, stop) =~= t.subrange(pos, end) + seq![','] + t.subrange(
            end + 1,
            stop,
        ));
    } else {
        let e = seq![v as u8];
        assert(e[0] == v);
    }
}

proof fn lemma_scan_list_complete(t: Seq<char>, pos: int, e: Seq<u8>)
    requires
        0 <= pos,
        e.len() >= 1,
        pos + comma_separated(e).len() < t.len(),
        t.subrange(pos, pos + comma_separated(e).len()) == comma_separated(e),
        !is_digit(t[pos + comma_separated(e).len()]),
        t[pos + comma_separated(e).len()] != ',',
    ensures
        scan_list(t, pos) == Some((e, pos + comma_separated(e).len())),
    decreases e.len(),
{
    let all = comma_separated(e);
    let stop = pos + all.len();
    let d = decimal(e[0] as nat);
    let end = pos + d.len();
    lemma_decimal_is_numeral(e[0] as nat);
    if e.len() == 1 {
        lemma_scan_number_complete(t, pos, 255, e[0] as nat);
        assert(seq![e[0]] =~= e);
    } else {
        let rest = e.drop_first();
        let more = comma_separated(rest);
        assert(all == d + seq![','] + more);
        assert(t.subrange(pos, end) =~= d) by {
            assert forall|i: int| 0 <= i < d.len() implies t.subrange(pos, end)[i] == d[i] by {
                assert(t.subrange(pos, stop)[i] == all[i]);
            }
        }
        assert(t[end] == ',') by {
            assert(t.subrange(pos, stop)[d.len() as int] == all[d.len() as int]);
        }
        lemma_scan_number_complete(t, pos, 255, e[0] as nat);
        assert(t.subrange(end + 1, stop) =~= more) by {
            assert forall|i: int| 0 <= i < more.len() implies t.subrange(end + 1, stop)[i]
                == more[i] by {
                assert(t.subrange(pos, stop)[d.len() + 1 + i] == all[d.len() + 1 + i]);
            }
        }
        lemma_scan_list_complete(t, end + 1, rest);
        assert(seq![e[0]] + rest =~= e);
    }
}

proof fn lemma_document_sound(t: Seq<char>)
    requires
        scan_document(t) is Some,
    ensures
        ({
            let (h, x, e) = scan_document(t)->0;
            &&& 1 <= h <= u32::MAX
            &&& 1 <= x <= u32::MAX
            &&& t == document_text(h, x, e)
        }),
{
    let head = "{\"height\":"@;
    let mid1 = ",\"xdim\":"@;
    let mid2 = ",\"encoding\":["@;
    let tail = "]}"@;
    let height_at = head.len() as int;
    lemma_scan_number_sound(t, height_at, u32::MAX as nat);
    let (h, height_end) = scan_number(t, height_at, u32::MAX as nat)->0;
    let xdim_at = height_end + mid1.len();
    lemma_scan_number_sound(t, xdim_at, u32::MAX as nat);
    let (x, xdim_end) = scan_number(t, xdim_at, u32::MAX as nat)->0;
    let list_at = xdim_end + mid2.len();
    if at(t, list_at, tail) {
        let e = Seq::<u8>::empty();
        assert(comma_separated(e) =~= Seq::<char>::empty());
        assert(t =~= t.subrange(0, height_at) + t.subrange(height_at, height_end) + t.subrange(height_end, xdim_at) + t.subrange(
            xdim_at,
            xdim_end,
        ) + t.subrange(xdim_end, list_at) + comma_separated(e) + t.subrange(list_at, list_at + tail.len()));
    } else {
        lemma_scan_list_sound(t, list_at);
        let (e, list_end) = scan_list(t, list_at)->0;
        assert(t =~= t.subrange(0, height_at) + t.subrange(height_at, height_end) + t.subrange(height_end, xdim_at) + t.subrange(
            xdim_at,
            xdim_end,
        ) + t.subrange(xdim_end, list_at) + t.subrange(list_at, list_end) + t.subrange(list_end, list_end + tail.len()));
    }
}

proof fn lemma_document_complete(h: nat, x: nat, e: Seq<u8>)
    requires
        1 <= h <= u32::MAX,
        1 <= x <= u32::MAX,
    ensures
        scan_document(document_text(h, x, e)) == Some((h, x, e)),
{
    let head = "{\"height\":"@;
    let mid1 = ",\"xdim\":"@;
    let mid2 = ",\"encoding\":["@;
    let tail = "]}"@;
    reveal_strlit(",\"xdim\":");
    reveal_strlit(",\"encoding\":[");
    reveal_strlit("]}");
    let t = document_text(h, x, e);
    let dh = decimal(h);
    let dx = decimal(x);
    let list = comma_separated(e);
    let height_at = head.len() as int;
    let height_end = height_at + dh.len();
    let xdim_at = height_end + mid1.len();
    let xdim_end = xdim_at + dx.len();
    let list_at = xdim_end + mid2.len();
    let list_end = list_at + list.len();
    assert(t.len() == list_end + tail.len());
    assert(t.subrange(0, height_at) =~= head);
    assert(t.subrange(height_at, height_end) =~= dh);
    assert(t.subrange(height_end, xdim_at) =~= mid1);
    assert(t.subrange(xdim_at, xdim_end) =~= dx);
    assert(t.subrange(xdim_end, list_at) =~= mid2);
    assert(t.subrange(list_at, list_end) =~= list);
    assert(t.subrange(list_end, list_end + tail.len()) =~= tail);
    assert(t[height_end] == mid1[0]);
    assert(t[xdim_end] == mid2[0]);
    assert(t[list_end] == tail[0]);
    lemma_scan_number_complete(t, height_at, u32::MAX as nat, h);
    lemma_scan_number_complete(t, xdim_at, u32::MAX as nat, x);
    if e.len() == 0 {
        assert(e =~= Seq::<u8>::empty());
    } else {
        lemma_decimal_is_numeral(e[0] as nat);
        assert(is_digit(list[0]));
        assert(t[list_at] == list[0]) by {
            assert(t.subrange(list_at, list_end)[0] == list[0]);
        }
        if at(t, list_at, tail) {
            assert(t.subrange(list_at, list_at + tail.len())[0] == tail[0]);
        }
        lemma_scan_list_complete(t, list_at, e);
    }
}

/// The JSON text of a document belongs to that document alone.
pub proof fn lemma_document_text_injective(
    h1: u32,
    x1: u32,
    e1: Seq<u8>,
    h2: u32,
    x2: u32,
    e2: Seq<u8>,
)
    requires
        h1 >= 1 && x1 >= 1 && h2 >= 1 && x2 >= 1,
        document_text(h1 as nat, x1 as nat, e1) == document_text(h2 as nat, x2 as nat, e2),
    ensures
        h1 == h2 && x1 == x2 && e1 == e2,
{
    lemma_document_complete(h1 as nat, x1 as nat, e1);
    lemma_document_complete(h2 as nat, x2 as nat, e2);
}

/// What decoding `text` has to return: the one document whose JSON text it
/// is, or the format error if it is the text of no document.
pub open spec fn decodes(text: Seq<char>, r: Result<Barcode, BarcodeError>) -> bool {
    match r {
        Ok(doc) => {
            &&& doc.height >= 1
            &&& doc.xdim >= 1
            &&& text == document_text(doc.height as nat, doc.xdim as nat, doc.encoding@)
        },
        Err(e) => {
            &&& e == BarcodeError::Format
            &&& forall|h: u32, x: u32, enc: Seq<u8>|
                h >= 1 && x >= 1 ==> text != #[trigger] document_text(h as nat, x as nat, enc)
        },
    }
}

/// Round trip: decoding the JSON text of a document gives that document
/// back, with the same height, module width and modules.
pub proof fn lemma_json_round_trip(
    height: u32,
    xdim: u32,
    encoding: Seq<u8>,
    decoded: Result<Barcode, BarcodeError>,
)
    requires
        height >= 1,
        xdim >= 1,
        decodes(document_text(height as nat, xdim as nat, encoding), decoded),
    ensures
        decoded matches Ok(doc) && doc.height == height && doc.xdim == xdim && doc.encoding@
            == encoding,
{
    let text = document_text(height as nat, xdim as nat, encoding);
    match decoded {
        Ok(doc) => {
            lemma_document_text_injective(
                height,
                xdim,
                encoding,
                doc.height,
                doc.xdim,
                doc.encoding@,
            );
        },
        Err(_) => {
            assert(text == document_text(height as nat, xdim as nat, encoding));
        },
    }
}

fn expect(t: &Vec<char>, pos: usize, lit: &str) -> (r: bool)
    requires
        pos <= t.len(),
    ensures
        r == at(t@, pos as int, lit@),
{
    let l = chars_of(lit);
    if l.len() > t.len() - pos {
        return false;
    }
    let mut i: usize = 0;
    while i < l.len()
        invariant
            i <= l.len(),
            pos + l.len() <= t.len(),
            l@ == lit@,
            forall|j: int| 0 <= j < i ==> t@[pos + j] == #[trigger] l@[j],
        decreases l.len() - i,
    {
        if t[pos + i] != l[i] {
            proof {
                assert(t@.subrange(pos as int, pos + l.len())[i as int] == t@[pos + i]);
            }
            return false;
        }
        i += 1;
    }
    proof {
        assert(t@.subrange(pos as int, pos + l.len()) =~= l@);
    }
    true
}

fn parse_list(t: &Vec<char>, start: usize) -> (r: Option<(Vec<u8>, usize)>)
    requires
        start <= t.len(),
    ensures
        match r {
            Some((v, stop)) => scan_list(t@, start as int) == Some((v@, stop as int)) && stop
                <= t.len(),
            None => scan_list(t@, start as int) is None,
        },
{
    let n = t.len();
    let mut acc: Vec<u8> = Vec::new();
    let mut pos: usize = start;
    proof {
        match scan_list(t@, start as int) {
            None => {},
            Some((more, stop)) => {
                assert(acc@ + more =~= more);
            },
        }
    }
    loop
        invariant
            pos <= n,
            n == t.len(),
            scan_list(t@, start as int) == glue(acc@, scan_list(t@, pos as int)),
        decreases n - pos,
    {
        match parse_number(t, pos, 255) {
            None => {
                return None;
            },
            Some((v, end)) => {
                let ghost before = acc@;
                acc.push(v as u8);
                if end < n && t[end] == ',' {
                    proof {
                        match scan_list(t@, end + 1) {
                            None => {},
                            Some((more, stop)) => {
                                assert(before + (seq![v as u8] + more) =~= acc@ + more);
                            },
                        }
                    }
                    pos = end + 1;
                } else {
                    proof {
                        assert(before + seq![v as u8] =~= acc@);
                    }
                    return Some((acc, end));
                }
            },
        }
    }
}

fn parse_document(t: &Vec<char>) -> (r: Option<Barcode>)
    ensures
        match r {
            Some(doc) => scan_document(t@) == Some(
                (doc.height as nat, doc.xdim as nat, doc.encoding@),
            ),
            None => scan_document(t@) is None,
        },
{
    let n = t.len();
    if !expect(t, 0, "{\"height\":") {
        return None;
    }
    let height_at = "{\"height\":".unicode_len();
    let (height, height_end) = match parse_number(t, height_at, 0xffff_ffff) {
        None => {
            return None;
        },
        Some(found) => found,
    };
    if height < 1 || !expect(t, height_end, ",\"xdim\":") {
        return None;
    }
    let xdim_at = height_end + ",\"xdim\":".unicode_len();
    let (xdim, xdim_end) = match parse_number(t, xdim_at, 0xffff_ffff) {
        None => {
            return None;
        },
        Some(found) => found,
    };
    if xdim < 1 || !expect(t, xdim_end, ",\"encoding\":[") {
        return None;
    }
    let list_at = xdim_end + ",\"encoding\":[".unicode_len();
    if expect(t, list_at, "]}") {
        if list_at + "]}".unicode_len() == n {
            return Some(Barcode { height: height as u32, xdim: xdim as u32, encoding: Vec::new() });
        } else {
            return None;
        }
    }
    match parse_list(t, list_at) {
        None => None,
        Some((encoding, list_end)) => {
            if expect(t, list_end, "]}") && list_end + "]}".unicode_len() == n {
                Some(Barcode { height: height as u32, xdim: xdim as u32, encoding })
            } else {
                None
            }
        },
    }
}

/// Decodes the JSON text of a document.
///
/// The text of a document, exactly as `document_text` writes it, gives that
/// document; every other text is a format error.
pub fn decode_json(text: &str) -> (r: Result<Barcode, BarcodeError>)
    ensures
        decodes(text@, r),
{
    let t = chars_of(text);
    match parse_document(&t) {
        Some(doc) => {
            proof {
                lemma_document_sound(t@);
            }
            Ok(doc)
        },
        None => {
            proof {
                assert forall|h: u32, x: u32, enc: Seq<u8>| h >= 1 && x >= 1 implies text@
                    != #[trigger] document_text(h as nat, x as nat, enc) by {
                    lemma_document_complete(h as nat, x as nat, enc);
                }
            }
            Err(BarcodeError::Format)
        },
    }
}

/// The modules as `barcoders` writes them: 0 stays, every other value
/// becomes 1.
pub open spec fn module_flags(modules: Seq<u8>) -> Seq<u8> {
    modules.map_values(
        |b: u8|
            if b == 0 {
                0u8
            } else {
                1u8
            },
    )
}

/// `JSON::generate` of `barcoders`, for a generator of the given height and
/// module width. It always succeeds, and writes an object of the members
/// `height`, `xdim` and `encoding` without white space: the two numbers in
/// decimal, and for each module `0` if it is 0 and `1` otherwise, with commas
/// between.
#[verifier::external_body]
fn json_generate(height: usize, xdim: usize, modules: &Vec<u8>) -> (r: Option<String>)
    ensures
        r is Some,
        r matches Some(s) ==> s@ == document_text(height as nat, xdim as nat, module_flags(modules@)),
{
    JSON { height, xdim }.generate(modules).ok()
}

/// Renders a train as the JSON text of a document with the given print
/// height and module width. Neither may be 0.
pub fn render_json(train: &ModuleTrain, height: u32, xdim: u32) -> (r: Result<
    String,
    BarcodeError,
>)
    ensures
        match r {
            Ok(s) => height >= 1 && xdim >= 1 && s@ == document_text(
                height as nat,
                xdim as nat,
                train@,
            ),
            Err(e) => e == BarcodeError::Format && (height == 0 || xdim == 0),
        },
{
    if height == 0 || xdim == 0 {
        return Err(BarcodeError::Format);
    }
    let modules = train.modules();
    proof {
        assert(module_flags(modules@) =~= modules@);
    }
    match json_generate(height as usize, xdim as usize, modules) {
        Some(s) => Ok(s),
        None => Err(BarcodeError::Format),
    }
}

} // verus!
