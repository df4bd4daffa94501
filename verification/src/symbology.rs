//! The Code 39 encoder: from a text token to the train of bar and space
//! modules that a scanner reads.

use vstd::prelude::*;
use vstd::string::StringSliceAdditionalSpecFns;
use vstd::utf8::{encode_utf8, is_ascii_chars, is_ascii_chars_encode_utf8};
use barcoders::error::Error;
use barcoders::sym::code39::Code39;
use crate::error::BarcodeError;

verus! {

/// The most bytes that a token may have.
pub const MAX_TOKEN_BYTES: usize = 256;

/// The modules of one character: twelve of them.
pub const PATTERN_MODULES: usize = 12;

/// The longest train: the sentinel twice, the most characters, and one gap
/// between every two neighbours.
pub const MAX_TRAIN_MODULES: usize = 3353;

/// The characters that Code 39 can encode: digits, upper-case letters and
/// seven punctuation marks.
pub open spec fn in_alphabet(c: char) -> bool {
    ||| '0' <= c <= '9'
    ||| 'A' <= c <= 'Z'
    ||| c == '-'
    ||| c == '.'
    ||| c == ' '
    ||| c == '$'
    ||| c == '/'
    ||| c == '+'
    ||| c == '%'
}

/// Every character of `token` is in the alphabet.
pub open spec fn all_in_alphabet(token: Seq<char>) -> bool {
    forall|i: int| 0 <= i < token.len() ==> in_alphabet(#[trigger] token[i])
}

/// The tokens that the encoder takes.
pub open spec fn accepted(token: Seq<char>) -> bool {
    &&& 1 <= token.len() <= MAX_TOKEN_BYTES
    &&& all_in_alphabet(token)
}

/// The error that a token outside `accepted` meets. Length is judged first,
/// in bytes of UTF-8, then the characters.
pub open spec fn rejection(token: Seq<char>) -> BarcodeError {
    if token.len() == 0 {
        BarcodeError::EmptyInput
    } else if encode_utf8(token).len() > MAX_TOKEN_BYTES {
        BarcodeError::TooLong
    } else {
        BarcodeError::UnsupportedCharacter
    }
}

/// The start and stop pattern, the modules of the reserved character `*`.
pub open spec fn sentinel_pattern() -> Seq<u8> {
    seq![1u8, 0u8, 0u8, 1u8, 0u8, 1u8, 1u8, 0u8, 1u8, 1u8, 0u8, 1u8]
}

/// The modules that the Code 39 table of `barcoders` assigns to the character
/// `c` of the alphabet.
pub uninterp spec fn code39_pattern(c: char) -> Seq<u8>;

/// What holds of every character pattern: twelve modules, each a space (0) or
/// a bar (1), a bar at both ends.
pub open spec fn is_pattern(p: Seq<u8>) -> bool {
    &&& p.len() == PATTERN_MODULES
    &&& forall|j: int| 0 <= j < p.len() ==> #[trigger] p[j] <= 1
    &&& p[0] == 1
    &&& p[PATTERN_MODULES - 1] == 1
}

/// The patterns of the characters of `data` in order, each followed by one
/// narrow space.
pub open spec fn payload(data: Seq<char>) -> Seq<u8>
    decreases data.len(),
{
    if data.len() == 0 {
        Seq::empty()
    } else {
        payload(data.drop_last()) + code39_pattern(data.last()) + seq![0u8]
    }
}

/// The module train of `data`: sentinel, gap, the characters with a gap after
/// each, sentinel. So one gap stands between every two neighbours and none
/// before the first or after the last pattern.
pub open spec fn module_train(data: Seq<char>) -> Seq<u8> {
    sentinel_pattern() + seq![0u8] + payload(data) + sentinel_pattern()
}

/// The module before pattern `k` of the train `s` is a space. Pattern 0 is
/// the first character; the pattern after the last character is the closing
/// sentinel.
pub open spec fn gap_before(s: Seq<u8>, k: int) -> bool {
    s[12 + 13 * k] == 0
}

/// Pattern `k` of the train `s` has a bar at both ends.
pub open spec fn bars_around(s: Seq<u8>, k: int) -> bool {
    s[13 + 13 * k] == 1 && s[24 + 13 * k] == 1
}

/// What makes a sequence of modules a Code 39 train, whatever it encodes:
/// the sentinel at both ends, a whole number of characters between them, bars
/// and spaces only, a space before every pattern and bars at the ends of each.
pub open spec fn is_module_train(s: Seq<u8>) -> bool {
    &&& 38 <= s.len() <= MAX_TRAIN_MODULES
    &&& (s.len() - 25) % 13 == 0
    &&& forall|i: int| 0 <= i < s.len() ==> #[trigger] s[i] <= 1
    &&& s.subrange(0, 12) == sentinel_pattern()
    &&& s.subrange(s.len() - 12, s.len() as int) == sentinel_pattern()
    &&& forall|k: int| 0 <= k <= (s.len() - 25) / 13 ==> #[trigger] gap_before(s, k)
    &&& forall|k: int| 0 <= k < (s.len() - 25) / 13 ==> #[trigger] bars_around(s, k)
}

/// How the symbology crate refused or failed.
enum SymbologyFault {
    /// The data holds a character that the symbology cannot encode.
    Character,
    /// The data is too short or too long.
    Length,
    /// A generator could not produce its output.
    Generate,
    /// A check digit is wrong.
    Checksum,
}

/// `Code39::new` followed by `Code39::encode`. The constructor refuses data of
/// no byte or of more than 256 bytes with `Length`, and otherwise data with a
/// character outside the alphabet with `Character`. For data that it takes,
/// `encode` returns the sentinel, one space, each character's pattern followed
/// by one space, and the sentinel again; every pattern of the table has twelve
/// modules of 0 and 1 and a 1 at both ends, and no two characters of the
/// table have the same pattern.
#[verifier::external_body]
fn code39_encode(data: &str) -> (r: Result<Vec<u8>, SymbologyFault>)
    requires
        data.spec_bytes().len() <= u32::MAX,
    ensures
        match r {
            Ok(v) => {
                &&& 1 <= data.spec_bytes().len() <= 256
                &&& all_in_alphabet(data@)
                &&& v@ == module_train(data@)
                &&& forall|i: int|
                    0 <= i < data@.len() ==> is_pattern(#[trigger] code39_pattern(data@[i]))
                &&& forall|i: int, c: char|
                    #![trigger code39_pattern(c), data@[i]]
                    0 <= i < data@.len() && in_alphabet(c) && code39_pattern(c) == code39_pattern(
                        data@[i],
                    ) ==> c == data@[i]
            },
            Err(SymbologyFault::Length) => data.spec_bytes().len() == 0 || data.spec_bytes().len()
                > 256,
            Err(SymbologyFault::Character) => 1 <= data.spec_bytes().len() <= 256
                && !all_in_alphabet(data@),
            Err(_) => false,
        },
{
    match Code39::new(data) {
        Ok(code) => Ok(code.encode()),
        Err(Error::Character) => Err(SymbologyFault::Character),
        Err(Error::Length) => Err(SymbologyFault::Length),
        Err(Error::Generate) => Err(SymbologyFault::Generate),
        Err(Error::Checksum) => Err(SymbologyFault::Checksum),
    }
}

/// What is known of the patterns of the characters of `data`: each is well
/// formed, and each belongs to no other character of the alphabet.
pub open spec fn patterns_known(data: Seq<char>) -> bool {
    &&& forall|i: int| 0 <= i < data.len() ==> is_pattern(#[trigger] code39_pattern(data[i]))
    &&& forall|i: int, c: char|
        #![trigger code39_pattern(c), data[i]]
        0 <= i < data.len() && in_alphabet(c) && code39_pattern(c) == code39_pattern(data[i])
            ==> c == data[i]
}

proof fn lemma_patterns_known_front(data: Seq<char>)
    requires
        patterns_known(data),
        data.len() > 0,
    ensures
        patterns_known(data.drop_last()),
        is_pattern(code39_pattern(data.last())),
{
    let front = data.drop_last();
    assert forall|i: int| 0 <= i < front.len() implies is_pattern(
        #[trigger] code39_pattern(front[i]),
    ) by {
        assert(front[i] == data[i]);
    }
    assert forall|i: int, c: char|
        #![trigger code39_pattern(c), front[i]]
        0 <= i < front.len() && in_alphabet(c) && code39_pattern(c) == code39_pattern(
            front[i],
        ) implies c == front[i] by {
        assert(front[i] == data[i]);
    }
    assert(is_pattern(code39_pattern(data[data.len() - 1])));
}

spec fn slot_shape(body: Seq<u8>, k: int) -> bool {
    &&& body[13 * k] == 1
    &&& body[13 * k + 11] == 1
    &&& body[13 * k + 12] == 0
}

proof fn lemma_payload_shape(data: Seq<char>)
    requires
        patterns_known(data),
    ensures
        payload(data).len() == 13 * data.len(),
        forall|j: int| 0 <= j < payload(data).len() ==> #[trigger] payload(data)[j] <= 1,
        forall|k: int| 0 <= k < data.len() ==> #[trigger] slot_shape(payload(data), k),
    decreases data.len(),
{
    if data.len() > 0 {
        let front = data.drop_last();
        lemma_patterns_known_front(data);
        lemma_payload_shape(front);
        let head = payload(front);
        let pat = code39_pattern(data.last());
        let out = payload(data);
        assert(out == head + pat + seq![0u8]);
        assert forall|j: int| 0 <= j < out.len() implies #[trigger] out[j] <= 1 by {
            if j < head.len() {
                assert(out[j] == head[j]);
            } else if j < head.len() + 12 {
                assert(out[j] == pat[j - head.len()]);
            }
        }
        assert forall|k: int| 0 <= k < data.len() implies #[trigger] slot_shape(out, k) by {
            if k < front.len() {
                assert(slot_shape(head, k));
                assert(out[13 * k] == head[13 * k]);
                assert(out[13 * k + 11] == head[13 * k + 11]);
                assert(out[13 * k + 12] == head[13 * k + 12]);
            } else {
                assert(out[13 * k] == pat[0]);
                assert(out[13 * k + 11] == pat[11]);
            }
        }
    }
}

proof fn lemma_payload_slot(data: Seq<char>, k: int)
    requires
        patterns_known(data),
        0 <= k < data.len(),
    ensures
        payload(data).subrange(13 * k, 13 * k + 12) == code39_pattern(data[k]),
    decreases data.len(),
{
    let front = data.drop_last();
    lemma_patterns_known_front(data);
    lemma_payload_shape(front);
    lemma_payload_shape(data);
    let head = payload(front);
    let pat = code39_pattern(data.last());
    let out = payload(data);
    assert(out == head + pat + seq![0u8]);
    if k < front.len() {
        lemma_payload_slot(front, k);
        assert(front[k] == data[k]);
        assert(out.subrange(13 * k, 13 * k + 12) =~= head.subrange(13 * k, 13 * k + 12));
    } else {
        assert(out.subrange(13 * k, 13 * k + 12) =~= pat);
    }
}

/// A train built from well-formed patterns has the shape of a Code 39 train,
/// and thirteen modules for each character beside the twenty-five of its
/// frame.
pub proof fn lemma_train_shape(data: Seq<char>)
    requires
        patterns_known(data),
        1 <= data.len() <= MAX_TOKEN_BYTES,
    ensures
        module_train(data).len() == 13 * data.len() + 25,
        is_module_train(module_train(data)),
{
    lemma_payload_shape(data);
    let body = payload(data);
    let t = module_train(data);
    let n = data.len() as int;
    assert(t.len() == 13 * n + 25);
    assert(forall|j: int| 0 <= j < 12 ==> t[j] == sentinel_pattern()[j]);
    assert(t[12] == 0);
    assert(forall|m: int| 0 <= m < 13 * n ==> t[13 + m] == #[trigger] body[m]);
    assert(forall|j: int| 0 <= j < 12 ==> t[13 + 13 * n + j] == sentinel_pattern()[j]);
    assert(t.subrange(0, 12) =~= sentinel_pattern());
    assert(t.subrange(t.len() - 12, t.len() as int) =~= sentinel_pattern());
    assert forall|i: int| 0 <= i < t.len() implies #[trigger] t[i] <= 1 by {
        if i < 12 {
            assert(t[i] == sentinel_pattern()[i]);
        } else if i == 12 {
        } else if i < 13 + 13 * n {
            assert(t[13 + (i - 13)] == body[i - 13]);
        } else {
            assert(t[13 + 13 * n + (i - 13 - 13 * n)] == sentinel_pattern()[i - 13 - 13 * n]);
        }
    }
    assert((t.len() - 25) / 13 == n && (t.len() - 25) % 13 == 0);
    assert forall|k: int| 0 <= k <= (t.len() - 25) / 13 implies #[trigger] gap_before(t, k) by {
        if k > 0 {
            assert(slot_shape(body, k - 1));
            assert(t[13 + (13 * (k - 1) + 12)] == body[13 * (k - 1) + 12]);
        }
    }
    assert forall|k: int| 0 <= k < (t.len() - 25) / 13 implies #[trigger] bars_around(t, k) by {
        assert(slot_shape(body, k));
        assert(t[13 + 13 * k] == body[13 * k]);
        assert(t[13 + (13 * k + 11)] == body[13 * k + 11]);
    }
}

/// Different tokens give different trains: two accepted tokens with the
/// same train are the same token.
pub proof fn lemma_trains_differ(first: Seq<char>, second: Seq<char>)
    requires
        accepted(first),
        accepted(second),
        patterns_known(first),
        patterns_known(second),
        module_train(first) == module_train(second),
    ensures
        first == second,
{
    lemma_train_shape(first);
    lemma_train_shape(second);
    lemma_payload_shape(first);
    lemma_payload_shape(second);
    let n = first.len() as int;
    assert(second.len() == n);
    assert(payload(first) =~= module_train(first).subrange(13, 13 + 13 * n));
    assert(payload(second) =~= module_train(second).subrange(13, 13 + 13 * n));
    assert forall|k: int| 0 <= k < n implies first[k] == second[k] by {
        lemma_payload_slot(first, k);
        lemma_payload_slot(second, k);
        assert(in_alphabet(second[k]));
        assert(code39_pattern(second[k]) == code39_pattern(first[k]));
    }
    assert(first =~= second);
}

proof fn lemma_utf8_len(s: Seq<char>)
    ensures
        s.len() <= encode_utf8(s).len(),
        s.len() == 0 <==> encode_utf8(s).len() == 0,
    decreases s.len(),
{
    if s.len() > 0 {
        lemma_utf8_len(s.drop_first());
    }
}

proof fn lemma_alphabet_is_ascii(s: Seq<char>)
    requires
        all_in_alphabet(s),
    ensures
        is_ascii_chars(s),
        encode_utf8(s).len() == s.len(),
{
    assert forall|i: int| 0 <= i < s.len() implies '\0' <= #[trigger] s[i] <= '\u{7f}' by {
        assert(in_alphabet(s[i]));
    }
    is_ascii_chars_encode_utf8(s);
}

/// A Code 39 module train: one byte for each module, 1 for a bar and 0 for a
/// space. A value of this type always has the shape that `is_module_train`
/// describes.
#[derive(Debug)]
pub struct ModuleTrain {
    modules: Vec<u8>,
}

impl View for ModuleTrain {
    type V = Seq<u8>;

    closed spec fn view(&self) -> Seq<u8> {
        self.modules@
    }
}

impl ModuleTrain {
    #[verifier::type_invariant]
    spec fn well_formed(&self) -> bool {
        is_module_train(self.modules@)
    }

    /// The modules, one byte each.
    pub fn modules(&self) -> (r: &Vec<u8>)
        ensures
            r@ == self@,
            is_module_train(self@),
    {
        proof {
            use_type_invariant(self);
        }
        &self.modules
    }

    /// Gives up the train for its modules.
    pub fn into_modules(self) -> (r: Vec<u8>)
        ensures
            r@ == self@,
            is_module_train(self@),
    {
        proof {
            use_type_invariant(&self);
        }
        self.modules
    }

    /// The number of modules.
    pub fn len(&self) -> (r: usize)
        ensures
            r == self@.len(),
            38 <= r <= MAX_TRAIN_MODULES,
    {
        proof {
            use_type_invariant(self);
        }
        self.modules.len()
    }

    /// The number of characters that the train encodes, the sentinels not
    /// counted.
    pub fn characters(&self) -> (r: usize)
        ensures
            self@.len() == 13 * r + 25,
            1 <= r <= MAX_TOKEN_BYTES,
    {
        proof {
            use_type_invariant(self);
        }
        (self.modules.len() - 25) / 13
    }

    /// Takes `modules` as a train if they have the shape of one.
    pub fn from_modules(modules: Vec<u8>) -> (r: Option<ModuleTrain>)
        ensures
            r is Some <==> is_module_train(modules@),
            r matches Some(train) ==> train@ == modules@,
    {
        if has_train_shape(&modules) {
            Some(ModuleTrain { modules })
        } else {
            None
        }
    }
}

/// The module at place `j` of the sentinel pattern.
fn sentinel_module(j: usize) -> (r: u8)
    requires
        j < 12,
    ensures
        r == sentinel_pattern()[j as int],
{
    if j == 0 || j == 3 || j == 5 || j == 6 || j == 8 || j == 9 || j == 11 {
        1
    } else {
        0
    }
}

/// Tests whether `modules` have the shape of a Code 39 train.
pub fn has_train_shape(modules: &Vec<u8>) -> (r: bool)
    ensures
        r == is_module_train(modules@),
{
    let n = modules.len();
    if n < 38 || n > MAX_TRAIN_MODULES || (n - 25) % 13 != 0 {
        return false;
    }
    let chars = (n - 25) / 13;
    let mut i: usize = 0;
    while i < n
        invariant
            i <= n,
            n == modules.len(),
            forall|m: int| 0 <= m < i ==> #[trigger] modules@[m] <= 1,
        decreases n - i,
    {
        if modules[i] > 1 {
            return false;
        }
        i += 1;
    }
    let mut j: usize = 0;
    while j < 12
        invariant
            j <= 12,
            38 <= n,
            n == modules.len(),
            forall|m: int| 0 <= m < j ==> #[trigger] modules@[m] == sentinel_pattern()[m],
            forall|m: int|
                0 <= m < j ==> modules@[n - 12 + m] == #[trigger] sentinel_pattern()[m],
        decreases 12 - j,
    {
        if modules[j] != sentinel_module(j) {
            proof {
                assert(modules@.subrange(0, 12)[j as int] == modules@[j as int]);
            }
            return false;
        }
        if modules[n - 12 + j] != sentinel_module(j) {
            proof {
                assert(modules@.subrange(n - 12, n as int)[j as int] == modules@[n - 12 + j]);
            }
            return false;
        }
        j += 1;
    }
    proof {
        assert(modules@.subrange(0, 12) =~= sentinel_pattern());
        assert(modules@.subrange(n - 12, n as int) =~= sentinel_pattern());
    }
    let mut k: usize = 0;
    while k <= chars
        invariant
            k <= chars + 1,
            n == modules.len(),
            n == 13 * chars + 25,
            forall|m: int| 0 <= m < k ==> #[trigger] gap_before(modules@, m),
            forall|m: int| 0 <= m < k && m < chars ==> #[trigger] bars_around(modules@, m),
        decreases chars + 1 - k,
    {
        if modules[12 + 13 * k] != 0 {
            proof {
                assert(!gap_before(modules@, k as int));
            }
            return false;
        }
        if k < chars && (modules[13 + 13 * k] != 1 || modules[24 + 13 * k] != 1) {
            proof {
                assert(!bars_around(modules@, k as int));
            }
            return false;
        }
        proof {
            assert(gap_before(modules@, k as int));
            assert(k < chars ==> bars_around(modules@, k as int));
        }
        k += 1;
    }
    true
}

/// What encoding `token` gives: its train, or the error that refuses it.
pub open spec fn encoding(token: Seq<char>) -> Result<Seq<u8>, BarcodeError> {
    if accepted(token) {
        Ok(module_train(token))
    } else {
        Err(rejection(token))
    }
}

/// The modules of a train or the error, as plain values.
pub open spec fn outcome(r: Result<ModuleTrain, BarcodeError>) -> Result<Seq<u8>, BarcodeError> {
    match r {
        Ok(train) => Ok(train@),
        Err(e) => Err(e),
    }
}

/// Encoding is deterministic: two results of encoding one token are the same
/// modules, or the same error.
pub proof fn lemma_encode_deterministic(
    token: Seq<char>,
    first: Result<ModuleTrain, BarcodeError>,
    second: Result<ModuleTrain, BarcodeError>,
)
    requires
        outcome(first) == encoding(token),
        outcome(second) == encoding(token),
    ensures
        outcome(first) == outcome(second),
{
}

/// Encodes a token as a Code 39 module train.
///
/// A token of 1 to 256 characters of the alphabet gives its train; any other
/// token gives the error that `rejection` names.
pub fn encode(token: &str) -> (r: Result<ModuleTrain, BarcodeError>)
    ensures
        outcome(r) == encoding(token@),
        match r {
            Ok(train) => {
                &&& accepted(token@)
                &&& patterns_known(token@)
                &&& train@ == module_train(token@)
                &&& train@.len() == 13 * token@.len() + 25
            },
            Err(e) => !accepted(token@) && e == rejection(token@),
        },
{
    proof {
        lemma_utf8_len(token@);
        if all_in_alphabet(token@) {
            lemma_alphabet_is_ascii(token@);
        }
    }
    if token.as_bytes().len() > MAX_TOKEN_BYTES {
        return Err(BarcodeError::TooLong);
    }
    match code39_encode(token) {
        Ok(modules) => {
            proof {
                lemma_train_shape(token@);
            }
            Ok(ModuleTrain { modules })
        },
        Err(SymbologyFault::Length) => Err(BarcodeError::EmptyInput),
        Err(SymbologyFault::Character) => Err(BarcodeError::UnsupportedCharacter),
        Err(_) => Err(BarcodeError::Format),
    }
}

/// One run of a train: bars or spaces, and how many modules of them.
#[derive(Clone, Copy, Debug, PartialEq, Eq, Structural)]
pub struct Segment {
    /// Whether the run is of bars.
    pub bar: bool,
    /// The number of modules in the run.
    pub width: u32,
}

/// The module of a run: 1 for bars, 0 for spaces.
pub open spec fn module_of(bar: bool) -> u8 {
    if bar {
        1
    } else {
        0
    }
}

/// `width` modules of one kind.
pub open spec fn run(bar: bool, width: nat) -> Seq<u8> {
    Seq::new(width, |i: int| module_of(bar))
}

/// The modules that a sequence of runs stands for.
pub open spec fn expand(segments: Seq<Segment>) -> Seq<u8>
    decreases segments.len(),
{
    if segments.len() == 0 {
        Seq::empty()
    } else {
        expand(segments.drop_last()) + run(segments.last().bar, segments.last().width as nat)
    }
}

/// Whether `segments` are the runs of `modules`: they stand for the
/// modules, none is empty, and bars and spaces alternate strictly.
pub open spec fn is_run_length_of(segments: Seq<Segment>, modules: Seq<u8>) -> bool {
    &&& expand(segments) == modules
    &&& forall|i: int| 0 <= i < segments.len() ==> (#[trigger] segments[i]).width >= 1
    &&& forall|i: int|
        0 <= i < segments.len() - 1 ==> (#[trigger] segments[i]).bar != segments[i + 1].bar
}

/// The runs of a train, from left to right: widths of bars and of spaces
/// in strict alternation, with a run of bars at both ends.
pub fn segments(train: &ModuleTrain) -> (r: Vec<Segment>)
    ensures
        is_run_length_of(r@, train@),
        r@.len() >= 1,
        r@[0].bar,
        r@.last().bar,
        bar_widths(r@) == count_bars(train@),
{
    let modules = train.modules();
    let n = modules.len();
    let mut out: Vec<Segment> = Vec::new();
    let mut bar: bool = modules[0] == 1;
    let mut width: u32 = 1;
    let mut i: usize = 1;
    proof {
        assert(modules@.subrange(0, 12)[0] == modules@[0]);
        assert(modules@.subrange(n - 12, n as int)[11] == modules@[n - 1]);
        assert(expand(out@) + run(bar, 1) =~= modules@.take(1));
    }
    while i < n
        invariant
            1 <= i <= n,
            n == modules.len(),
            n <= MAX_TRAIN_MODULES,
            1 <= width <= i,
            forall|k: int| 0 <= k < n ==> #[trigger] modules@[k] <= 1,
            modules@[0] == 1,
            expand(out@) + run(bar, width as nat) == modules@.take(i as int),
            forall|k: int| 0 <= k < out@.len() ==> (#[trigger] out@[k]).width >= 1,
            forall|k: int| 0 <= k < out@.len() - 1 ==> (#[trigger] out@[k]).bar != out@[k + 1].bar,
            out@.len() >= 1 ==> out@.last().bar != bar && out@[0].bar,
            out@.len() == 0 ==> bar,
            bar == (modules@[i - 1] == 1),
        decreases n - i,
    {
        let next: bool = modules[i] == 1;
        if next == bar {
            proof {
                assert(run(bar, width as nat + 1) =~= run(bar, width as nat) + seq![
                    modules@[i as int],
                ]);
                assert(modules@.take(i as int + 1) =~= modules@.take(i as int) + seq![
                    modules@[i as int],
                ]);
                assert(expand(out@) + run(bar, width as nat + 1) =~= expand(out@) + run(
                    bar,
                    width as nat,
                ) + seq![modules@[i as int]]);
            }
            width += 1;
        } else {
            let ghost done = out@;
            out.push(Segment { bar, width });
            proof {
                assert(out@.drop_last() =~= done);
                assert(run(next, 1) =~= seq![modules@[i as int]]);
                assert(modules@.take(i as int + 1) =~= modules@.take(i as int) + seq![
                    modules@[i as int],
                ]);
            }
            bar = next;
            width = 1;
        }
        i += 1;
    }
    let ghost done = out@;
    out.push(Segment { bar, width });
    proof {
        assert(out@.drop_last() =~= done);
        assert(modules@.take(n as int) =~= modules@);
        assert(modules@.subrange(n - 12, n as int)[11] == modules@[n - 1]);
        lemma_bar_widths(out@);
    }
    out
}

/// The number of bar modules in `modules`.
pub open spec fn count_bars(modules: Seq<u8>) -> nat
    decreases modules.len(),
{
    if modules.len() == 0 {
        0
    } else if modules.last() == 1 {
        count_bars(modules.drop_last()) + 1
    } else {
        count_bars(modules.drop_last())
    }
}

/// The sum of the widths of the runs of bars in `segments`.
pub open spec fn bar_widths(segments: Seq<Segment>) -> nat
    decreases segments.len(),
{
    if segments.len() == 0 {
        0
    } else if segments.last().bar {
        bar_widths(segments.drop_last()) + segments.last().width as nat
    } else {
        bar_widths(segments.drop_last())
    }
}

proof fn lemma_count_bars_of_run(front: Seq<u8>, bar: bool, width: nat)
    ensures
        count_bars(front + run(bar, width)) == count_bars(front) + if bar {
            width
        } else {
            0
        },
    decreases width,
{
    if width == 0 {
        assert(front + run(bar, width) =~= front);
    } else {
        let all = front + run(bar, width);
        assert(all.drop_last() =~= front + run(bar, (width - 1) as nat));
        assert(all.last() == module_of(bar));
        lemma_count_bars_of_run(front, bar, (width - 1) as nat);
    }
}

/// The widths of the runs of bars add up to the number of bar modules: what
/// a rendering draws is as wide as the bars are many.
pub proof fn lemma_bar_widths(segments: Seq<Segment>)
    ensures
        bar_widths(segments) == count_bars(expand(segments)),
    decreases segments.len(),
{
    if segments.len() > 0 {
        lemma_bar_widths(segments.drop_last());
        lemma_count_bars_of_run(
            expand(segments.drop_last()),
            segments.last().bar,
            segments.last().width as nat,
        );
    }
}

/// Counts the bar modules of a train: the number of shapes that a rendering
/// draws for it.
pub fn bar_count(train: &ModuleTrain) -> (r: usize)
    ensures
        r == count_bars(train@),
{
    let modules = train.modules();
    let mut count: usize = 0;
    let mut i: usize = 0;
    while i < modules.len()
        invariant
            i <= modules.len(),
            count <= i,
            count == count_bars(modules@.take(i as int)),
        decreases modules.len() - i,
    {
        proof {
            assert(modules@.take(i as int + 1).drop_last() =~= modules@.take(i as int));
        }
        if modules[i] == 1 {
            count += 1;
        }
        i += 1;
    }
    proof {
        assert(modules@.take(modules.len() as int) =~= modules@);
    }
    count
}

} // verus!
