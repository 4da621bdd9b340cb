//! Classification of a single cell: float first, then unsigned integer, then text.
use vstd::prelude::*;
use vstd::string::StrSliceExecFns;

verus! {

/// An ASCII decimal digit.
pub open spec fn is_digit(c: char) -> bool {
    '0' <= c && c <= '9'
}

pub open spec fn all_digits(s: Seq<char>) -> bool {
    forall|i: int| 0 <= i < s.len() ==> is_digit(#[trigger] s[i])
}

pub open spec fn is_sign(c: char) -> bool {
    c == '+' || c == '-'
}

pub open spec fn is_exp_marker(c: char) -> bool {
    c == 'e' || c == 'E'
}

/// `c` is the lowercase ASCII letter `l` or its uppercase form.
pub open spec fn same_letter(c: char, l: char) -> bool {
    c == l || (c as u32) + 32 == (l as u32)
}

/// `s` spells the lowercase word `w`, ignoring ASCII case.
pub open spec fn word_ci(s: Seq<char>, w: Seq<char>) -> bool {
    s.len() == w.len() && forall|i: int| 0 <= i < s.len() ==> same_letter(#[trigger] s[i], w[i])
}

/// `e` or `E`, an optional sign, then one or more digits.
pub open spec fn is_exponent(s: Seq<char>) -> bool {
    &&& s.len() >= 2
    &&& is_exp_marker(s[0])
    &&& (all_digits(s.skip(1)) || (s.len() >= 3 && is_sign(s[1]) && all_digits(s.skip(2))))
}

/// `Digit+`, `Digit+ '.' Digit*` or `Digit* '.' Digit+`.
pub open spec fn is_decimal(s: Seq<char>) -> bool {
    ||| (s.len() >= 1 && all_digits(s))
    ||| exists|k: int|
        #![trigger s[k]]
        0 <= k < s.len() && s[k] == '.' && s.len() >= 2 && all_digits(s.take(k))
            && all_digits(s.skip(k + 1))
}

/// A decimal mantissa with an optional exponent.
pub open spec fn is_number(s: Seq<char>) -> bool {
    ||| is_decimal(s)
    ||| exists|k: int|
        0 <= k < s.len() && is_decimal(s.take(k)) && #[trigger] is_exponent(s.skip(k))
}

pub open spec fn is_special_float(s: Seq<char>) -> bool {
    ||| word_ci(s, seq!['i', 'n', 'f'])
    ||| word_ci(s, seq!['i', 'n', 'f', 'i', 'n', 'i', 't', 'y'])
    ||| word_ci(s, seq!['n', 'a', 'n'])
}

pub open spec fn unsigned_float(s: Seq<char>) -> bool {
    is_special_float(s) || is_number(s)
}

/// The text that std's 64-bit float parser accepts: an optional sign, then
/// `inf`, `infinity`, `nan` (in any case) or a decimal number with an optional
/// exponent. No surrounding whitespace.
pub open spec fn float_literal(s: Seq<char>) -> bool {
    unsigned_float(s) || (s.len() >= 1 && is_sign(s[0]) && unsigned_float(s.skip(1)))
}

/// First index in `lo..hi` that holds `c`, or `hi`.
pub(crate) fn find_char(v: &Vec<char>, lo: usize, hi: usize, c: char) -> (r: usize)
    requires
        lo <= hi <= v@.len(),
    ensures
        lo <= r <= hi,
        forall|i: int| lo <= i < r ==> v@[i] != c,
        r < hi ==> v@[r as int] == c,
{
    let mut i: usize = lo;
    while i < hi
        invariant
            lo <= i <= hi <= v@.len(),
            forall|j: int| lo <= j < i ==> v@[j] != c,
        decreases hi - i,
    {
        if v[i] == c {
            return i;
        }
        i = i + 1;
    }
    i
}

fn digits_in(v: &Vec<char>, lo: usize, hi: usize) -> (r: bool)
    requires
        lo <= hi <= v@.len(),
    ensures
        r == all_digits(v@.subrange(lo as int, hi as int)),
{
    let mut i: usize = lo;
    while i < hi
        invariant
            lo <= i <= hi <= v@.len(),
            forall|j: int| lo <= j < i ==> is_digit(v@[j]),
        decreases hi - i,
    {
        if !('0' <= v[i] && v[i] <= '9') {
            assert(v@.subrange(lo as int, hi as int)[i - lo] == v@[i as int]);
            return false;
        }
        i = i + 1;
    }
    assert forall|j: int| 0 <= j < hi - lo implies is_digit(
        #[trigger] v@.subrange(lo as int, hi as int)[j],
    ) by {
        assert(v@.subrange(lo as int, hi as int)[j] == v@[lo + j]);
    }
    true
}

/// Every character of a decimal is a digit or the point.
proof fn lemma_decimal_chars(s: Seq<char>)
    requires
        is_decimal(s),
    ensures
        forall|i: int| 0 <= i < s.len() ==> is_digit(#[trigger] s[i]) || s[i] == '.',
{
    if !(s.len() >= 1 && all_digits(s)) {
        let k = choose|k: int|
            #![trigger s[k]]
            0 <= k < s.len() && s[k] == '.' && s.len() >= 2 && all_digits(s.take(k))
                && all_digits(s.skip(k + 1));
        assert forall|i: int| 0 <= i < s.len() implies is_digit(#[trigger] s[i]) || s[i] == '.' by {
            if i < k {
                assert(s.take(k)[i] == s[i]);
            } else if i > k {
                assert(s.skip(k + 1)[i - k - 1] == s[i]);
            }
        }
    }
}

fn decimal_in(v: &Vec<char>, lo: usize, hi: usize) -> (r: bool)
    requires
        lo <= hi <= v@.len(),
    ensures
        r == is_decimal(v@.subrange(lo as int, hi as int)),
{
    let ghost s = v@.subrange(lo as int, hi as int);
    let d = find_char(v, lo, hi, '.');
    if d == hi {
        if hi > lo && digits_in(v, lo, hi) {
            return true;
        }
        assert(!is_decimal(s)) by {
            if is_decimal(s) && !(s.len() >= 1 && all_digits(s)) {
                let k: int = choose|k: int|
                    #![trigger s[k]]
                    0 <= k < s.len() && s[k] == '.' && s.len() >= 2 && all_digits(s.take(k))
                        && all_digits(s.skip(k + 1));
                assert(s[k] == v@[lo + k]);
            }
        }
        false
    } else {
        let ghost k: int = d - lo;
        assert(s[k] == '.');
        assert(!all_digits(s));
        assert(s.take(k) =~= v@.subrange(lo as int, d as int));
        assert(s.skip(k + 1) =~= v@.subrange(d + 1, hi as int));
        let r = hi - lo >= 2 && digits_in(v, lo, d) && digits_in(v, d + 1, hi);
        proof {
            if !r && is_decimal(s) {
                let j = choose|j: int|
                    #![trigger s[j]]
                    0 <= j < s.len() && s[j] == '.' && s.len() >= 2 && all_digits(s.take(j))
                        && all_digits(s.skip(j + 1));
                if j < k {
                    assert(s[j] == v@[lo + j]);
                } else if j > k {
                    assert(s.take(j)[k] == s[k]);
                }
            }
        }
        r
    }
}

fn exponent_in(v: &Vec<char>, lo: usize, hi: usize) -> (r: bool)
    requires
        lo <= hi <= v@.len(),
    ensures
        r == is_exponent(v@.subrange(lo as int, hi as int)),
{
    let ghost s = v@.subrange(lo as int, hi as int);
    if hi - lo < 2 || !(v[lo] == 'e' || v[lo] == 'E') {
        return false;
    }
    assert(s.skip(1) =~= v@.subrange(lo + 1, hi as int));
    assert(s.skip(2) =~= v@.subrange(lo + 2, hi as int));
    if v[lo + 1] == '+' || v[lo + 1] == '-' {
        assert(!is_digit(s.skip(1)[0]));
        hi - lo >= 3 && digits_in(v, lo + 2, hi)
    } else {
        digits_in(v, lo + 1, hi)
    }
}

fn number_in(v: &Vec<char>, lo: usize, hi: usize) -> (r: bool)
    requires
        lo <= hi <= v@.len(),
    ensures
        r == is_number(v@.subrange(lo as int, hi as int)),
{
    let ghost s = v@.subrange(lo as int, hi as int);
    let e = find_char(v, lo, hi, 'e');
    let e2 = find_char(v, lo, e, 'E');
    let ghost m: int = e2 - lo;
    assert forall|i: int| 0 <= i < m implies !is_exp_marker(#[trigger] s[i]) by {
        assert(s[i] == v@[lo + i]);
    }
    if e2 == hi {
        let r = decimal_in(v, lo, hi);
        proof {
            if !r && is_number(s) {
                let k = choose|k: int|
                    0 <= k < s.len() && is_decimal(s.take(k)) && #[trigger] is_exponent(s.skip(k));
                assert(s.skip(k)[0] == s[k]);
            }
        }
        r
    } else {
        assert(is_exp_marker(s[m]));
        assert(s.take(m) =~= v@.subrange(lo as int, e2 as int));
        assert(s.skip(m) =~= v@.subrange(e2 as int, hi as int));
        proof {
            if is_decimal(s) {
                lemma_decimal_chars(s);
            }
        }
        let r = decimal_in(v, lo, e2) && exponent_in(v, e2, hi);
        proof {
            if !r && is_number(s) {
                let k = choose|k: int|
                    0 <= k < s.len() && is_decimal(s.take(k)) && #[trigger] is_exponent(s.skip(k));
                assert(s.skip(k)[0] == s[k]);
                if k > m {
                    lemma_decimal_chars(s.take(k));
                    assert(s.take(k)[m] == s[m]);
                }
            }
        }
        r
    }
}

/// `v[lo..hi]` spells the lowercase word `w`, ignoring ASCII case.
fn word_ci_in(v: &Vec<char>, lo: usize, hi: usize, w: &[char]) -> (r: bool)
    requires
        lo <= hi <= v@.len(),
        forall|i: int| 0 <= i < w@.len() ==> 'a' <= #[trigger] w@[i] <= 'z',
    ensures
        r == word_ci(v@.subrange(lo as int, hi as int), w@),
{
    let ghost s = v@.subrange(lo as int, hi as int);
    if hi - lo != w.len() {
        return false;
    }
    let mut i: usize = 0;
    while i < w.len()
        invariant
            lo <= hi <= v@.len(),
            hi - lo == w@.len(),
            s == v@.subrange(lo as int, hi as int),
            forall|j: int| 0 <= j < w@.len() ==> 'a' <= #[trigger] w@[j] <= 'z',
            0 <= i <= w@.len(),
            forall|j: int| 0 <= j < i ==> same_letter(#[trigger] s[j], w@[j]),
        decreases w@.len() - i,
    {
        let c = v[lo + i];
        let l = w[i];
        assert(s[i as int] == c);
        if !(c == l || (c as u32) == (l as u32) - 32) {
            return false;
        }
        i = i + 1;
    }
    true
}

fn special_in(v: &Vec<char>, lo: usize, hi: usize) -> (r: bool)
    requires
        lo <= hi <= v@.len(),
    ensures
        r == is_special_float(v@.subrange(lo as int, hi as int)),
{
    let inf = ['i', 'n', 'f'];
    let infinity = ['i', 'n', 'f', 'i', 'n', 'i', 't', 'y'];
    let nan = ['n', 'a', 'n'];
    assert(inf@ =~= seq!['i', 'n', 'f']);
    assert(infinity@ =~= seq!['i', 'n', 'f', 'i', 'n', 'i', 't', 'y']);
    assert(nan@ =~= seq!['n', 'a', 'n']);
    word_ci_in(v, lo, hi, inf.as_slice()) || word_ci_in(v, lo, hi, infinity.as_slice())
        || word_ci_in(v, lo, hi, nan.as_slice())
}

fn unsigned_float_in(v: &Vec<char>, lo: usize, hi: usize) -> (r: bool)
    requires
        lo <= hi <= v@.len(),
    ensures
        r == unsigned_float(v@.subrange(lo as int, hi as int)),
{
    special_in(v, lo, hi) || number_in(v, lo, hi)
}

/// Decides whether `v` is text that std's 64-bit float parser accepts.
pub fn is_float_literal(v: &Vec<char>) -> (r: bool)
    ensures
        r == float_literal(v@),
{
    let n = v.len();
    assert(v@.subrange(0, n as int) =~= v@);
    if unsigned_float_in(v, 0, n) {
        return true;
    }
    if n >= 1 && (v[0] == '+' || v[0] == '-') {
        assert(v@.skip(1) =~= v@.subrange(1, n as int));
        unsigned_float_in(v, 1, n)
    } else {
        false
    }
}

/// Numeric value of a digit character.
pub open spec fn digit_value(c: char) -> nat {
    ((c as u32) - ('0' as u32)) as nat
}

/// Value of a string of decimal digits, most significant first.
pub open spec fn digits_value(s: Seq<char>) -> nat
    decreases s.len(),
{
    if s.len() == 0 {
        0
    } else {
        digits_value(s.drop_last()) * 10 + digit_value(s.last())
    }
}

/// What follows the optional leading `+` of an unsigned integer.
pub open spec fn unsigned_digits(s: Seq<char>) -> Seq<char> {
    if s.len() >= 1 && s[0] == '+' {
        s.skip(1)
    } else {
        s
    }
}

/// The text that std's `u64` parser accepts: an optional `+`, then one or more
/// digits whose value fits in 64 bits.
pub open spec fn uint_literal(s: Seq<char>) -> bool {
    let d = unsigned_digits(s);
    d.len() >= 1 && all_digits(d) && digits_value(d) <= u64::MAX
}

proof fn lemma_digits_value_prefix(s: Seq<char>, j: int)
    requires
        0 <= j <= s.len(),
    ensures
        digits_value(s.take(j)) <= digits_value(s),
    decreases s.len(),
{
    if j < s.len() {
        lemma_digits_value_prefix(s.drop_last(), j);
        assert(s.drop_last().take(j) =~= s.take(j));
    } else {
        assert(s.take(j) =~= s);
    }
}

/// Parses `v` as std's `u64` parser does.
pub fn parse_u64(v: &Vec<char>) -> (r: Option<u64>)
    ensures
        r is Some <==> uint_literal(v@),
        r is Some ==> r->Some_0 == digits_value(unsigned_digits(v@)),
{
    let ghost d = unsigned_digits(v@);
    let start: usize = if v.len() >= 1 && v[0] == '+' {
        1
    } else {
        0
    };
    assert(d =~= v@.skip(start as int));
    if start == v.len() {
        return None;
    }
    let mut acc: u64 = 0;
    let mut i: usize = start;
    while i < v.len()
        invariant
            start <= i <= v@.len(),
            d == v@.skip(start as int),
            d == unsigned_digits(v@),
            all_digits(d.take(i - start)),
            acc == digits_value(d.take(i - start)),
        decreases v@.len() - i,
    {
        let c = v[i];
        assert(d[i - start] == c);
        if !('0' <= c && c <= '9') {
            assert(!is_digit(d[i - start]));
            return None;
        }
        let ghost t = d.take(i - start + 1);
        assert(t.drop_last() =~= d.take(i - start));
        assert(t.last() == c);
        assert(digits_value(t) == acc * 10 + digit_value(c));
        let next = match acc.checked_mul(10) {
            Some(m) => m.checked_add((c as u32 - '0' as u32) as u64),
            None => None,
        };
        match next {
            Some(x) => {
                acc = x;
            },
            None => {
                proof {
                    lemma_digits_value_prefix(d, i - start + 1);
                }
                return None;
            },
        }
        assert forall|j: int| 0 <= j < t.len() implies is_digit(#[trigger] t[j]) by {
            if j < i - start {
                assert(t[j] == d.take(i - start)[j]);
            }
        }
        i = i + 1;
    }
    assert(d.take(i - start) =~= d);
    Some(acc)
}

/// Spec-level form of a cell.
pub enum CellView {
    Str(Seq<char>),
    U64(u64),
    F64(Seq<char>),
}

/// Content of one cell. A float cell keeps the text it was read from, which
/// std's float parser accepts.
#[derive(Debug, Clone, PartialEq)]
pub enum OutType {
    Str(String),
    U64(u64),
    F64(String),
}

impl View for OutType {
    type V = CellView;

    open spec fn view(&self) -> CellView {
        match self {
            OutType::Str(s) => CellView::Str(s@),
            OutType::U64(n) => CellView::U64(*n),
            OutType::F64(s) => CellView::F64(s@),
        }
    }
}

impl Default for OutType {
    /// An empty text cell.
    fn default() -> (r: OutType)
        ensures
            r@ == CellView::Str(Seq::empty()),
    {
        OutType::Str(String::new())
    }
}

/// Float first, then unsigned integer, then text.
pub open spec fn classify(s: Seq<char>) -> CellView {
    if float_literal(s) {
        CellView::F64(s)
    } else if uint_literal(s) {
        CellView::U64(digits_value(unsigned_digits(s)) as u64)
    } else {
        CellView::Str(s)
    }
}

/// The characters of `s`, in order.
pub fn chars_of(s: &str) -> (r: Vec<char>)
    ensures
        r@ == s@,
{
    let n = s.unicode_len();
    let mut r: Vec<char> = Vec::new();
    let mut i: usize = 0;
    while i < n
        invariant
            n == s@.len(),
            i <= n,
            r@ =~= s@.take(i as int),
        decreases n - i,
    {
        r.push(s.get_char(i));
        i = i + 1;
    }
    assert(s@.take(n as int) =~= s@);
    r
}

/// Classifies one cell: a float if std's float parser accepts it, else an
/// unsigned integer if std's `u64` parser does, else text.
pub fn matcher(element: String) -> (r: OutType)
    ensures
        r@ == classify(element@),
{
    let v = chars_of(element.as_str());
    if is_float_literal(&v) {
        OutType::F64(element)
    } else if let Some(n) = parse_u64(&v) {
        OutType::U64(n)
    } else {
        OutType::Str(element)
    }
}

/// An optional `-` followed by one or more digits.
pub open spec fn signed_digit_string(s: Seq<char>) -> bool {
    let d = if s.len() >= 1 && s[0] == '-' {
        s.skip(1)
    } else {
        s
    };
    d.len() >= 1 && all_digits(d)
}

/// Classification depends on the text alone: equal texts give equal cells.
pub proof fn lemma_classify_deterministic(a: Seq<char>, b: Seq<char>)
    requires
        a == b,
    ensures
        classify(a) == classify(b),
{
}

/// The empty text is a text cell holding the empty string.
pub proof fn lemma_empty_is_text()
    ensures
        classify(Seq::<char>::empty()) == CellView::Str(Seq::<char>::empty()),
{
    let e = Seq::<char>::empty();
    assert(!is_decimal(e));
    assert(!is_number(e));
    assert(!word_ci(e, seq!['i', 'n', 'f']));
    assert(!word_ci(e, seq!['i', 'n', 'f', 'i', 'n', 'i', 't', 'y']));
    assert(!word_ci(e, seq!['n', 'a', 'n']));
}

/// A string of digits with an optional minus sign is a float cell, never an
/// integer cell: the float parse is tried first.
pub proof fn lemma_digits_classify_as_float(s: Seq<char>)
    requires
        signed_digit_string(s),
    ensures
        classify(s) == CellView::F64(s),
{
    if s.len() >= 1 && s[0] == '-' {
        assert(is_decimal(s.skip(1)));
    } else {
        assert(is_decimal(s));
    }
}

/// Every text that the `u64` parser accepts is accepted by the float parser
/// as well, so no cell is ever classified as an unsigned integer.
pub proof fn lemma_never_uint(s: Seq<char>)
    ensures
        !(classify(s) is U64),
{
    if uint_literal(s) {
        let d = unsigned_digits(s);
        assert(is_decimal(d));
        if s.len() >= 1 && s[0] == '+' {
            assert(is_sign(s[0]) && unsigned_float(s.skip(1)));
        }
    }
}

/// The variant of a cell is recoverable from the shape of its text: a text
/// cell never holds a numeric literal, and a float cell always holds one.
pub proof fn lemma_variant_from_shape(s: Seq<char>)
    ensures
        classify(s) is Str ==> !float_literal(s) && !uint_literal(s),
        classify(s) is F64 ==> float_literal(classify(s)->F64_0),
        classify(s) is Str ==> classify(classify(s)->Str_0) == classify(s),
        classify(s) is F64 ==> classify(classify(s)->F64_0) == classify(s),
{
}

} // verus!
