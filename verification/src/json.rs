use vstd::prelude::*;
use vstd::arithmetic::div_mod::lemma_fundamental_div_mod;

verus! {

// ---------------------------------------------------------------------------
// Token layer of the wire codec: whitespace, strings (with escapes), and
// decimal numbers, each as a spec-level parser or printer with an executable
// mirror proved equal to it.
//
// All parsers work on a byte sequence `s` from a position `i` and either fail
// or return the parsed value together with the position just after it.
// ---------------------------------------------------------------------------

pub const QU: u8 = 34; // double quote
pub const BSL: u8 = 92; // backslash
pub const LBR: u8 = 123; // left brace
pub const RBR: u8 = 125; // right brace
pub const LSQ: u8 = 91; // left bracket
pub const RSQ: u8 = 93; // right bracket
pub const COMMA: u8 = 44;
pub const COLON: u8 = 58;

pub open spec fn is_ws(c: u8) -> bool {
    c == 32 || c == 9 || c == 10 || c == 13
}

/// The first position at or after `i` holding a non-whitespace byte (or the
/// end of `s`).
pub open spec fn skip_ws(s: Seq<u8>, i: int) -> int
    decreases s.len() - i,
{
    if 0 <= i < s.len() && is_ws(s[i]) {
        skip_ws(s, i + 1)
    } else {
        i
    }
}

fn ws_end(s: &Vec<u8>, i: usize) -> (r: usize)
    requires
        i <= s@.len(),
    ensures
        r as int == skip_ws(s@, i as int),
        i <= r <= s@.len(),
{
    let mut j = i;
    while j < s.len() && (s[j] == 32 || s[j] == 9 || s[j] == 10 || s[j] == 13)
        invariant
            i <= j <= s@.len(),
            skip_ws(s@, i as int) == skip_ws(s@, j as int),
        decreases s@.len() - j,
    {
        j = j + 1;
    }
    j
}

// ---------------------------------------------------------------------------
// Strings.  A string body is everything after the opening quote up to and
// including the closing quote.  The two bytes that the printer escapes are
// quote and backslash; the parser additionally accepts the other standard
// two-character escapes.
// ---------------------------------------------------------------------------

/// The byte a two-character escape `\\c` stands for, if `c` is a recognised
/// escape character.
pub open spec fn unescape1(c: u8) -> Option<u8> {
    if c == QU {
        Some(QU)
    } else if c == BSL {
        Some(BSL)
    } else if c == 47 {
        Some(47)
    } else if c == 98 {
        Some(8)
    } else if c == 102 {
        Some(12)
    } else if c == 110 {
        Some(10)
    } else if c == 114 {
        Some(13)
    } else if c == 116 {
        Some(9)
    } else {
        None
    }
}

/// Parse a string body starting at `i` (just after the opening quote):
/// the unescaped contents and the position just after the closing quote.
pub open spec fn parse_str_body(s: Seq<u8>, i: int) -> Option<(Seq<u8>, int)>
    decreases s.len() - i,
{
    if i < 0 || i >= s.len() {
        None
    } else if s[i] == QU {
        Some((Seq::<u8>::empty(), i + 1))
    } else if s[i] == BSL {
        if i + 1 < s.len() {
            match unescape1(s[i + 1]) {
                Some(c) => match parse_str_body(s, i + 2) {
                    Some((t, j)) => Some((seq![c] + t, j)),
                    None => None,
                },
                None => None,
            }
        } else {
            None
        }
    } else {
        match parse_str_body(s, i + 1) {
            Some((t, j)) => Some((seq![s[i]] + t, j)),
            None => None,
        }
    }
}

pub proof fn lemma_parse_str_body_bounds(s: Seq<u8>, i: int)
    ensures
        match parse_str_body(s, i) {
            Some((t, j)) => i < j <= s.len(),
            None => true,
        },
    decreases s.len() - i,
{
    if 0 <= i < s.len() {
        if s[i] == QU {
        } else if s[i] == BSL {
            if i + 1 < s.len() {
                lemma_parse_str_body_bounds(s, i + 2);
            }
        } else {
            lemma_parse_str_body_bounds(s, i + 1);
        }
    }
}

fn unescape_byte(c: u8) -> (r: Option<u8>)
    ensures
        r == unescape1(c),
{
    if c == QU {
        Some(QU)
    } else if c == BSL {
        Some(BSL)
    } else if c == 47 {
        Some(47)
    } else if c == 98 {
        Some(8)
    } else if c == 102 {
        Some(12)
    } else if c == 110 {
        Some(10)
    } else if c == 114 {
        Some(13)
    } else if c == 116 {
        Some(9)
    } else {
        None
    }
}

/// Executable mirror of `parse_str_body`.
fn take_str_body(s: &Vec<u8>, i: usize) -> (r: Option<(Vec<u8>, usize)>)
    requires
        i <= s@.len(),
    ensures
        match r {
            Some(p) => parse_str_body(s@, i as int) == Some((p.0@, p.1 as int)) && i < p.1
                <= s@.len(),
            None => parse_str_body(s@, i as int) is None,
        },
{
    let mut acc: Vec<u8> = Vec::new();
    let mut j = i;
    loop
        invariant
            i <= j <= s@.len(),
            match parse_str_body(s@, j as int) {
                Some(p) => parse_str_body(s@, i as int) == Some((acc@ + p.0, p.1)),
                None => parse_str_body(s@, i as int) is None,
            },
        decreases s@.len() - j,
    {
        proof {
            lemma_parse_str_body_bounds(s@, j as int);
        }
        if j >= s.len() {
            return None;
        }
        let c = s[j];
        if c == QU {
            assert(acc@ + Seq::<u8>::empty() =~= acc@);
            return Some((acc, j + 1));
        } else if c == BSL {
            if j + 1 >= s.len() {
                return None;
            }
            match unescape_byte(s[j + 1]) {
                None => {
                    return None;
                },
                Some(d) => {
                    let ghost acc0 = acc@;
                    acc.push(d);
                    proof {
                        match parse_str_body(s@, j + 2) {
                            Some(p) => {
                                assert(acc0 + (seq![d] + p.0) =~= acc@ + p.0);
                            },
                            None => {},
                        }
                    }
                    j = j + 2;
                },
            }
        } else {
            let ghost acc0 = acc@;
            acc.push(c);
            proof {
                match parse_str_body(s@, j + 1) {
                    Some(p) => {
                        assert(acc0 + (seq![c] + p.0) =~= acc@ + p.0);
                    },
                    None => {},
                }
            }
            j = j + 1;
        }
    }
}

/// How the printer renders one byte of a string body.
pub open spec fn escape1(c: u8) -> Seq<u8> {
    if c == QU || c == BSL {
        seq![BSL, c]
    } else {
        seq![c]
    }
}

/// The printed form of a string body.
pub open spec fn escape(s: Seq<u8>) -> Seq<u8>
    decreases s.len(),
{
    if s.len() == 0 {
        Seq::<u8>::empty()
    } else {
        escape1(s[0]) + escape(s.drop_first())
    }
}

/// The printed form of a string value, quotes included.
pub open spec fn enc_str(s: Seq<u8>) -> Seq<u8> {
    seq![QU] + escape(s) + seq![QU]
}

pub proof fn lemma_escape_concat(a: Seq<u8>, b: Seq<u8>)
    ensures
        escape(a + b) == escape(a) + escape(b),
    decreases a.len(),
{
    if a.len() == 0 {
        assert(a + b =~= b);
        assert(escape(a) + escape(b) =~= escape(b));
    } else {
        assert((a + b).drop_first() =~= a.drop_first() + b);
        lemma_escape_concat(a.drop_first(), b);
        assert(escape1((a + b)[0]) + (escape(a.drop_first()) + escape(b)) =~= (escape1(a[0])
            + escape(a.drop_first())) + escape(b));
    }
}

/// Append the escaped form of `s` to `out`.
fn push_escaped(out: &mut Vec<u8>, s: &Vec<u8>)
    ensures
        final(out)@ == old(out)@ + escape(s@),
{
    let ghost base = out@;
    let mut k: usize = 0;
    while k < s.len()
        invariant
            k <= s@.len(),
            out@ == base + escape(s@.take(k as int)),
        decreases s@.len() - k,
    {
        let ghost pre = s@.take(k as int);
        let c = s[k];
        if c == QU || c == BSL {
            out.push(BSL);
            out.push(c);
        } else {
            out.push(c);
        }
        k = k + 1;
        proof {
            assert(s@.take(k as int) =~= pre + seq![c]);
            lemma_escape_concat(pre, seq![c]);
            assert(seq![c].drop_first() =~= Seq::<u8>::empty());
            assert(escape(seq![c]) == escape1(c) + escape(Seq::<u8>::empty()));
            assert(escape1(c) + Seq::<u8>::empty() =~= escape1(c));
            assert(base + escape(pre) + escape1(c) =~= base + (escape(pre) + escape1(c)));
        }
    }
    proof {
        assert(s@.take(s@.len() as int) =~= s@);
    }
}

/// Append the printed string value (quotes included) to `out`.
pub(crate) fn push_str_value(out: &mut Vec<u8>, s: &Vec<u8>)
    ensures
        final(out)@ == old(out)@ + enc_str(s@),
{
    let ghost base = out@;
    out.push(QU);
    push_escaped(out, s);
    out.push(QU);
    proof {
        assert(out@ =~= base + enc_str(s@));
    }
}

// ---------------------------------------------------------------------------
// Decimal numbers.
// ---------------------------------------------------------------------------

pub open spec fn is_digit(c: u8) -> bool {
    48 <= c <= 57
}

/// The end of the run of digit bytes starting at `i`.
pub open spec fn digit_run_end(s: Seq<u8>, i: int) -> int
    decreases s.len() - i,
{
    if 0 <= i < s.len() && is_digit(s[i]) {
        digit_run_end(s, i + 1)
    } else {
        i
    }
}

pub proof fn lemma_digit_run_end(s: Seq<u8>, i: int)
    requires
        0 <= i <= s.len(),
    ensures
        i <= digit_run_end(s, i) <= s.len(),
        forall|k: int| i <= k < digit_run_end(s, i) ==> is_digit(#[trigger] s[k]),
        digit_run_end(s, i) < s.len() ==> !is_digit(s[digit_run_end(s, i)]),
    decreases s.len() - i,
{
    if i < s.len() && is_digit(s[i]) {
        lemma_digit_run_end(s, i + 1);
    }
}

/// The numeric value of a sequence of digit bytes.
pub open spec fn digits_val(ds: Seq<u8>) -> int
    decreases ds.len(),
{
    if ds.len() == 0 {
        0
    } else {
        digits_val(ds.drop_last()) * 10 + (ds.last() - 48)
    }
}

pub proof fn lemma_digits_val_nonneg(ds: Seq<u8>)
    requires
        forall|k: int| 0 <= k < ds.len() ==> is_digit(#[trigger] ds[k]),
    ensures
        digits_val(ds) >= 0,
    decreases ds.len(),
{
    if ds.len() > 0 {
        lemma_digits_val_nonneg(ds.drop_last());
    }
}

/// A digit run's value only grows as the run is extended to the right.
pub proof fn lemma_digits_val_extend(ds: Seq<u8>, m: int)
    requires
        forall|k: int| 0 <= k < ds.len() ==> is_digit(#[trigger] ds[k]),
        0 <= m <= ds.len(),
    ensures
        digits_val(ds) >= digits_val(ds.take(m)),
    decreases ds.len() - m,
{
    if m < ds.len() {
        lemma_digits_val_extend(ds, m + 1);
        let p = ds.take(m + 1);
        assert(p.drop_last() =~= ds.take(m));
        lemma_digits_val_nonneg(ds.take(m));
        assert(digits_val(ds.take(m)) * 10 >= digits_val(ds.take(m))) by {
            assert(digits_val(ds.take(m)) * 9 >= 0) by (nonlinear_arith)
                requires
                    digits_val(ds.take(m)) >= 0,
            ;
        }
    } else {
        assert(ds.take(m) =~= ds);
    }
}

/// Parse a number: the longest digit run starting at `i`, failing when it is
/// empty or its value does not fit in a `u64`.
pub open spec fn parse_u64(s: Seq<u8>, i: int) -> Option<(u64, int)> {
    let j = digit_run_end(s, i);
    if j == i {
        None
    } else {
        let v = digits_val(s.subrange(i, j));
        if v <= u64::MAX {
            Some((v as u64, j))
        } else {
            None
        }
    }
}

/// Executable mirror of `parse_u64`.
fn take_u64(s: &Vec<u8>, i: usize) -> (r: Option<(u64, usize)>)
    requires
        i <= s@.len(),
    ensures
        match r {
            Some(p) => parse_u64(s@, i as int) == Some((p.0, p.1 as int)) && i < p.1 <= s@.len(),
            None => parse_u64(s@, i as int) is None,
        },
{
    proof {
        lemma_digit_run_end(s@, i as int);
    }
    let mut j = i;
    while j < s.len() && 48 <= s[j] && s[j] <= 57
        invariant
            i <= j <= s@.len(),
            digit_run_end(s@, i as int) == digit_run_end(s@, j as int),
        decreases s@.len() - j,
    {
        j = j + 1;
    }
    assert(j as int == digit_run_end(s@, i as int));
    if j == i {
        return None;
    }
    let ghost run = s@.subrange(i as int, j as int);
    let mut acc: u128 = 0;
    let mut k = i;
    while k < j
        invariant
            i <= k <= j <= s@.len(),
            j as int == digit_run_end(s@, i as int),
            run == s@.subrange(i as int, j as int),
            forall|m: int| i <= m < j ==> is_digit(#[trigger] s@[m]),
            acc as int == digits_val(s@.subrange(i as int, k as int)),
            acc <= u64::MAX as u128,
        decreases j - k,
    {
        let d = s[k];
        let ghost pre = s@.subrange(i as int, k as int);
        acc = acc * 10 + ((d - 48) as u128);
        k = k + 1;
        proof {
            let cur = s@.subrange(i as int, k as int);
            assert(cur.drop_last() =~= pre);
            assert(cur.last() == d);
        }
        if acc > u64::MAX as u128 {
            proof {
                lemma_digits_val_extend(run, k - i);
                assert(run.take(k - i) =~= s@.subrange(i as int, k as int));
            }
            return None;
        }
    }
    proof {
        assert(s@.subrange(i as int, k as int) =~= run);
        lemma_digits_val_nonneg(run);
    }
    Some((acc as u64, j))
}

/// The decimal digits of `n`, most significant first.
pub open spec fn dec_digits(n: nat) -> Seq<u8>
    decreases n,
{
    if n < 10 {
        seq![(48 + n) as u8]
    } else {
        dec_digits(n / 10).push((48 + n % 10) as u8)
    }
}

pub proof fn lemma_dec_digits(n: nat)
    ensures
        dec_digits(n).len() >= 1,
        forall|k: int| 0 <= k < dec_digits(n).len() ==> is_digit(#[trigger] dec_digits(n)[k]),
        digits_val(dec_digits(n)) == n,
    decreases n,
{
    if n < 10 {
        let ds = dec_digits(n);
        assert(ds.drop_last() =~= Seq::<u8>::empty());
        assert(ds.last() == (48 + n) as u8);
        assert(digits_val(ds) == digits_val(ds.drop_last()) * 10 + (ds.last() - 48));
        assert(digits_val(ds) == n);
    } else {
        lemma_dec_digits(n / 10);
        let ds = dec_digits(n);
        assert(ds.drop_last() =~= dec_digits(n / 10));
        lemma_fundamental_div_mod(n as int, 10);
        assert(0 <= n % 10 < 10);
        assert(ds.last() == (48 + n % 10) as u8);
        assert(digits_val(ds) == (n / 10) * 10 + n % 10);
    }
}

/// Append the decimal digits of `n` to `out`.
pub(crate) fn push_u64(out: &mut Vec<u8>, n: u64)
    ensures
        final(out)@ == old(out)@ + dec_digits(n as nat),
    decreases n,
{
    if n < 10 {
        out.push(48 + n as u8);
        assert(out@ =~= old(out)@ + dec_digits(n as nat));
    } else {
        push_u64(out, n / 10);
        out.push(48 + (n % 10) as u8);
        assert(out@ =~= old(out)@ + dec_digits(n as nat));
    }
}


// ---------------------------------------------------------------------------
// Values.  The grammar knows four simple value shapes -- null, an unsigned
// integer, a string, and an array of strings -- and, at the envelope level
// only, an object whose members are simple values.
// ---------------------------------------------------------------------------

pub open spec fn lit_null() -> Seq<u8> {
    seq![110, 117, 108, 108]
}

#[verifier::ext_equal]
pub enum JValV {
    Null,
    Int(u64),
    Str(Seq<u8>),
    Arr(Seq<Seq<u8>>),
}

/// A simple value as parsed by the executable code.
pub enum JVal {
    Null,
    Int(u64),
    Str(Vec<u8>),
    Arr(Vec<Vec<u8>>),
}

pub open spec fn bytes_view(es: Seq<Vec<u8>>) -> Seq<Seq<u8>> {
    es.map_values(|v: Vec<u8>| v@)
}

impl View for JVal {
    type V = JValV;

    open spec fn view(&self) -> JValV {
        match self {
            JVal::Null => JValV::Null,
            JVal::Int(n) => JValV::Int(*n),
            JVal::Str(t) => JValV::Str(t@),
            JVal::Arr(es) => JValV::Arr(bytes_view(es@)),
        }
    }
}

#[verifier::ext_equal]
pub enum EValV {
    Sv(JValV),
    Obj(Seq<(Seq<u8>, JValV)>),
}

/// An envelope-level value: a simple value or a one-level object.
pub enum EVal {
    Sv(JVal),
    Obj(Vec<(Vec<u8>, JVal)>),
}

pub open spec fn sfields_view(fs: Seq<(Vec<u8>, JVal)>) -> Seq<(Seq<u8>, JValV)> {
    fs.map_values(|p: (Vec<u8>, JVal)| (p.0@, p.1@))
}

impl View for EVal {
    type V = EValV;

    open spec fn view(&self) -> EValV {
        match self {
            EVal::Sv(v) => EValV::Sv(v@),
            EVal::Obj(fs) => EValV::Obj(sfields_view(fs@)),
        }
    }
}

pub open spec fn efields_view(fs: Seq<(Vec<u8>, EVal)>) -> Seq<(Seq<u8>, EValV)> {
    fs.map_values(|p: (Vec<u8>, EVal)| (p.0@, p.1@))
}

// ---------------------------------------------------------------------------
// Spec-level parsers for values, arrays and member lists.
// ---------------------------------------------------------------------------

/// Parse the members of a non-empty string array, starting just after `[` or
/// just after a separating comma; ends just after `]`.
pub open spec fn parse_arr_items(s: Seq<u8>, i: int) -> Option<(Seq<Seq<u8>>, int)>
    decreases s.len() - i,
{
    let i1 = skip_ws(s, i);
    if !(0 <= i1 < s.len() && s[i1] == QU) {
        None
    } else {
        match parse_str_body(s, i1 + 1) {
            Some((e, j)) => {
                let j1 = skip_ws(s, j);
                if 0 <= j1 < s.len() {
                    if s[j1] == RSQ {
                        Some((seq![e], j1 + 1))
                    } else if s[j1] == COMMA && i < j1 + 1 {
                        match parse_arr_items(s, j1 + 1) {
                            Some((es, k)) => Some((seq![e] + es, k)),
                            None => None,
                        }
                    } else {
                        None
                    }
                } else {
                    None
                }
            },
            None => None,
        }
    }
}

/// Parse a string array, starting just after `[`.
pub open spec fn parse_arr(s: Seq<u8>, i: int) -> Option<(Seq<Seq<u8>>, int)> {
    let i1 = skip_ws(s, i);
    if 0 <= i1 < s.len() && s[i1] == RSQ {
        Some((Seq::<Seq<u8>>::empty(), i1 + 1))
    } else {
        parse_arr_items(s, i)
    }
}

/// Parse a simple value starting exactly at `i` (no leading whitespace).
pub open spec fn parse_sval(s: Seq<u8>, i: int) -> Option<(JValV, int)> {
    if !(0 <= i < s.len()) {
        None
    } else if s[i] == QU {
        match parse_str_body(s, i + 1) {
            Some((t, j)) => Some((JValV::Str(t), j)),
            None => None,
        }
    } else if is_digit(s[i]) {
        match parse_u64(s, i) {
            Some((v, j)) => Some((JValV::Int(v), j)),
            None => None,
        }
    } else if s[i] == LSQ {
        match parse_arr(s, i + 1) {
            Some((es, j)) => Some((JValV::Arr(es), j)),
            None => None,
        }
    } else if s[i] == 110 {
        if i + 4 <= s.len() && s[i + 1] == 117 && s[i + 2] == 108 && s[i + 3] == 108 {
            Some((JValV::Null, i + 4))
        } else {
            None
        }
    } else {
        None
    }
}

/// Parse the members of a non-empty object of simple values, starting just
/// after `{` or just after a separating comma; ends just after `}`.
pub open spec fn parse_sfields_more(s: Seq<u8>, i: int) -> Option<(Seq<(Seq<u8>, JValV)>, int)>
    decreases s.len() - i,
{
    let i1 = skip_ws(s, i);
    if !(0 <= i1 < s.len() && s[i1] == QU) {
        None
    } else {
        match parse_str_body(s, i1 + 1) {
            Some((k, j)) => {
                let j1 = skip_ws(s, j);
                if 0 <= j1 < s.len() && s[j1] == COLON {
                    let v1 = skip_ws(s, j1 + 1);
                    match parse_sval(s, v1) {
                        Some((v, l)) => {
                            let l1 = skip_ws(s, l);
                            if 0 <= l1 < s.len() {
                                if s[l1] == RBR {
                                    Some((seq![(k, v)], l1 + 1))
                                } else if s[l1] == COMMA && i < l1 + 1 {
                                    match parse_sfields_more(s, l1 + 1) {
                                        Some((fs, m)) => Some((seq![(k, v)] + fs, m)),
                                        None => None,
                                    }
                                } else {
                                    None
                                }
                            } else {
                                None
                            }
                        },
                        None => None,
                    }
                } else {
                    None
                }
            },
            None => None,
        }
    }
}

/// Parse an object of simple values, starting just after `{`.
pub open spec fn parse_sfields(s: Seq<u8>, i: int) -> Option<(Seq<(Seq<u8>, JValV)>, int)> {
    let i1 = skip_ws(s, i);
    if 0 <= i1 < s.len() && s[i1] == RBR {
        Some((Seq::<(Seq<u8>, JValV)>::empty(), i1 + 1))
    } else {
        parse_sfields_more(s, i)
    }
}

/// Parse the members of a non-empty envelope object, starting just after `{`
/// or just after a separating comma; ends just after `}`.
pub open spec fn parse_efields_more(s: Seq<u8>, i: int) -> Option<(Seq<(Seq<u8>, EValV)>, int)>
    decreases s.len() - i,
{
    let i1 = skip_ws(s, i);
    if !(0 <= i1 < s.len() && s[i1] == QU) {
        None
    } else {
        match parse_str_body(s, i1 + 1) {
            Some((k, j)) => {
                let j1 = skip_ws(s, j);
                if 0 <= j1 < s.len() && s[j1] == COLON {
                    let v1 = skip_ws(s, j1 + 1);
                    let pv = if 0 <= v1 < s.len() && s[v1] == LBR {
                        match parse_sfields(s, v1 + 1) {
                            Some((bfs, l)) => Some((EValV::Obj(bfs), l)),
                            None => None,
                        }
                    } else {
                        match parse_sval(s, v1) {
                            Some((v, l)) => Some((EValV::Sv(v), l)),
                            None => None,
                        }
                    };
                    match pv {
                        Some((v, l)) => {
                            let l1 = skip_ws(s, l);
                            if 0 <= l1 < s.len() {
                                if s[l1] == RBR {
                                    Some((seq![(k, v)], l1 + 1))
                                } else if s[l1] == COMMA && i < l1 + 1 {
                                    match parse_efields_more(s, l1 + 1) {
                                        Some((fs, m)) => Some((seq![(k, v)] + fs, m)),
                                        None => None,
                                    }
                                } else {
                                    None
                                }
                            } else {
                                None
                            }
                        },
                        None => None,
                    }
                } else {
                    None
                }
            },
            None => None,
        }
    }
}

/// Parse an envelope object, starting just after `{`.
pub open spec fn parse_efields(s: Seq<u8>, i: int) -> Option<(Seq<(Seq<u8>, EValV)>, int)> {
    let i1 = skip_ws(s, i);
    if 0 <= i1 < s.len() && s[i1] == RBR {
        Some((Seq::<(Seq<u8>, EValV)>::empty(), i1 + 1))
    } else {
        parse_efields_more(s, i)
    }
}

/// Parse one whole line as an envelope object: the member list, with nothing
/// but whitespace after the closing brace.
pub open spec fn parse_envelope(s: Seq<u8>) -> Option<Seq<(Seq<u8>, EValV)>> {
    let i0 = skip_ws(s, 0);
    if 0 <= i0 < s.len() && s[i0] == LBR {
        match parse_efields(s, i0 + 1) {
            Some((fs, j)) => {
                if skip_ws(s, j) == s.len() {
                    Some(fs)
                } else {
                    None
                }
            },
            None => None,
        }
    } else {
        None
    }
}


// ---------------------------------------------------------------------------
// Executable mirrors of the value and member-list parsers.
// ---------------------------------------------------------------------------

/// Executable mirror of `parse_arr_items`.
fn take_arr_items(s: &Vec<u8>, i: usize) -> (r: Option<(Vec<Vec<u8>>, usize)>)
    requires
        i <= s@.len(),
    ensures
        match r {
            Some(p) => parse_arr_items(s@, i as int) == Some((bytes_view(p.0@), p.1 as int)) && i
                < p.1 <= s@.len(),
            None => parse_arr_items(s@, i as int) is None,
        },
    decreases s@.len() - i,
{
    let i1 = ws_end(s, i);
    if i1 >= s.len() || s[i1] != QU {
        return None;
    }
    match take_str_body(s, i1 + 1) {
        None => None,
        Some((e, j)) => {
            let j1 = ws_end(s, j);
            if j1 >= s.len() {
                return None;
            }
            if s[j1] == RSQ {
                let mut out: Vec<Vec<u8>> = Vec::new();
                out.push(e);
                proof {
                    assert(bytes_view(out@) =~= seq![out@[0]@]);
                }
                Some((out, j1 + 1))
            } else if s[j1] == COMMA {
                match take_arr_items(s, j1 + 1) {
                    None => None,
                    Some((mut es, k)) => {
                        let ghost tail = bytes_view(es@);
                        es.insert(0, e);
                        proof {
                            assert(bytes_view(es@) =~= seq![es@[0]@] + tail);
                        }
                        Some((es, k))
                    },
                }
            } else {
                None
            }
        },
    }
}

/// Executable mirror of `parse_sval`.
fn take_sval(s: &Vec<u8>, i: usize) -> (r: Option<(JVal, usize)>)
    requires
        i <= s@.len(),
    ensures
        match r {
            Some(p) => parse_sval(s@, i as int) == Some((p.0@, p.1 as int)) && i < p.1 <= s@.len(),
            None => parse_sval(s@, i as int) is None,
        },
{
    if i >= s.len() {
        return None;
    }
    let c = s[i];
    if c == QU {
        match take_str_body(s, i + 1) {
            Some((t, j)) => Some((JVal::Str(t), j)),
            None => None,
        }
    } else if 48 <= c && c <= 57 {
        match take_u64(s, i) {
            Some((v, j)) => Some((JVal::Int(v), j)),
            None => None,
        }
    } else if c == LSQ {
        let i1 = ws_end(s, i + 1);
        if i1 < s.len() && s[i1] == RSQ {
            proof {
                assert(bytes_view(Seq::<Vec<u8>>::empty()) =~= Seq::<Seq<u8>>::empty());
            }
            Some((JVal::Arr(Vec::new()), i1 + 1))
        } else {
            match take_arr_items(s, i + 1) {
                Some((es, j)) => Some((JVal::Arr(es), j)),
                None => None,
            }
        }
    } else if c == 110 {
        if s.len() - i >= 4 && s[i + 1] == 117 && s[i + 2] == 108 && s[i + 3] == 108 {
            Some((JVal::Null, i + 4))
        } else {
            None
        }
    } else {
        None
    }
}

/// Executable mirror of `parse_sfields_more`.
fn take_sfields_more(s: &Vec<u8>, i: usize) -> (r: Option<(Vec<(Vec<u8>, JVal)>, usize)>)
    requires
        i <= s@.len(),
    ensures
        match r {
            Some(p) => parse_sfields_more(s@, i as int) == Some((sfields_view(p.0@), p.1 as int))
                && i < p.1 <= s@.len(),
            None => parse_sfields_more(s@, i as int) is None,
        },
    decreases s@.len() - i,
{
    let i1 = ws_end(s, i);
    if i1 >= s.len() || s[i1] != QU {
        return None;
    }
    match take_str_body(s, i1 + 1) {
        None => None,
        Some((k, j)) => {
            let j1 = ws_end(s, j);
            if j1 >= s.len() || s[j1] != COLON {
                return None;
            }
            let v1 = ws_end(s, j1 + 1);
            match take_sval(s, v1) {
                None => None,
                Some((v, l)) => {
                    let l1 = ws_end(s, l);
                    if l1 >= s.len() {
                        return None;
                    }
                    if s[l1] == RBR {
                        let mut out: Vec<(Vec<u8>, JVal)> = Vec::new();
                        out.push((k, v));
                        proof {
                            assert(sfields_view(out@) =~= seq![(out@[0].0@, out@[0].1@)]);
                        }
                        Some((out, l1 + 1))
                    } else if s[l1] == COMMA {
                        match take_sfields_more(s, l1 + 1) {
                            None => None,
                            Some((mut fs, m)) => {
                                let ghost tail = sfields_view(fs@);
                                fs.insert(0, (k, v));
                                proof {
                                    assert(sfields_view(fs@) =~= seq![(fs@[0].0@, fs@[0].1@)]
                                        + tail);
                                }
                                Some((fs, m))
                            },
                        }
                    } else {
                        None
                    }
                },
            }
        },
    }
}

/// Executable mirror of `parse_sfields`.
fn take_sfields(s: &Vec<u8>, i: usize) -> (r: Option<(Vec<(Vec<u8>, JVal)>, usize)>)
    requires
        i <= s@.len(),
    ensures
        match r {
            Some(p) => parse_sfields(s@, i as int) == Some((sfields_view(p.0@), p.1 as int)) && i
                < p.1 <= s@.len(),
            None => parse_sfields(s@, i as int) is None,
        },
{
    let i1 = ws_end(s, i);
    if i1 < s.len() && s[i1] == RBR {
        proof {
            assert(sfields_view(Seq::<(Vec<u8>, JVal)>::empty()) =~= Seq::<(
                Seq<u8>,
                JValV,
            )>::empty());
        }
        Some((Vec::new(), i1 + 1))
    } else {
        take_sfields_more(s, i)
    }
}

/// Executable mirror of `parse_efields_more`.
fn take_efields_more(s: &Vec<u8>, i: usize) -> (r: Option<(Vec<(Vec<u8>, EVal)>, usize)>)
    requires
        i <= s@.len(),
    ensures
        match r {
            Some(p) => parse_efields_more(s@, i as int) == Some((efields_view(p.0@), p.1 as int))
                && i < p.1 <= s@.len(),
            None => parse_efields_more(s@, i as int) is None,
        },
    decreases s@.len() - i,
{
    let i1 = ws_end(s, i);
    if i1 >= s.len() || s[i1] != QU {
        return None;
    }
    match take_str_body(s, i1 + 1) {
        None => None,
        Some((k, j)) => {
            let j1 = ws_end(s, j);
            if j1 >= s.len() || s[j1] != COLON {
                return None;
            }
            let v1 = ws_end(s, j1 + 1);
            let pv: Option<(EVal, usize)> = if v1 < s.len() && s[v1] == LBR {
                match take_sfields(s, v1 + 1) {
                    Some((bfs, l)) => Some((EVal::Obj(bfs), l)),
                    None => None,
                }
            } else {
                match take_sval(s, v1) {
                    Some((v, l)) => Some((EVal::Sv(v), l)),
                    None => None,
                }
            };
            match pv {
                None => None,
                Some((v, l)) => {
                    let l1 = ws_end(s, l);
                    if l1 >= s.len() {
                        return None;
                    }
                    if s[l1] == RBR {
                        let mut out: Vec<(Vec<u8>, EVal)> = Vec::new();
                        out.push((k, v));
                        proof {
                            assert(efields_view(out@) =~= seq![(out@[0].0@, out@[0].1@)]);
                        }
                        Some((out, l1 + 1))
                    } else if s[l1] == COMMA {
                        match take_efields_more(s, l1 + 1) {
                            None => None,
                            Some((mut fs, m)) => {
                                let ghost tail = efields_view(fs@);
                                fs.insert(0, (k, v));
                                proof {
                                    assert(efields_view(fs@) =~= seq![(fs@[0].0@, fs@[0].1@)]
                                        + tail);
                                }
                                Some((fs, m))
                            },
                        }
                    } else {
                        None
                    }
                },
            }
        },
    }
}

/// Executable mirror of `parse_envelope`.
pub(crate) fn take_envelope(s: &Vec<u8>) -> (r: Option<Vec<(Vec<u8>, EVal)>>)
    ensures
        match r {
            Some(fs) => parse_envelope(s@) == Some(efields_view(fs@)),
            None => parse_envelope(s@) is None,
        },
{
    let i0 = ws_end(s, 0);
    if i0 >= s.len() || s[i0] != LBR {
        return None;
    }
    let fsr = {
        let i1 = ws_end(s, i0 + 1);
        if i1 < s.len() && s[i1] == RBR {
            proof {
                assert(efields_view(Seq::<(Vec<u8>, EVal)>::empty()) =~= Seq::<(
                    Seq<u8>,
                    EValV,
                )>::empty());
            }
            Some((Vec::new(), i1 + 1))
        } else {
            take_efields_more(s, i0 + 1)
        }
    };
    match fsr {
        None => None,
        Some((fs, j)) => {
            let j1 = ws_end(s, j);
            if j1 == s.len() {
                Some(fs)
            } else {
                None
            }
        },
    }
}

// ---------------------------------------------------------------------------
// Printers: the canonical rendering of values, member lists and objects.
// Members are joined by single commas, with no added whitespace.
// ---------------------------------------------------------------------------

pub open spec fn enc_sval(v: JValV) -> Seq<u8>
    decreases v,
{
    match v {
        JValV::Null => lit_null(),
        JValV::Int(n) => dec_digits(n as nat),
        JValV::Str(t) => enc_str(t),
        JValV::Arr(es) => seq![LSQ] + enc_arr_inner(es) + seq![RSQ],
    }
}

pub open spec fn enc_arr_inner(es: Seq<Seq<u8>>) -> Seq<u8>
    decreases es.len(),
{
    if es.len() == 0 {
        Seq::<u8>::empty()
    } else if es.len() == 1 {
        enc_str(es[0])
    } else {
        enc_str(es[0]) + seq![COMMA] + enc_arr_inner(es.drop_first())
    }
}

pub open spec fn enc_sfield(f: (Seq<u8>, JValV)) -> Seq<u8> {
    enc_str(f.0) + seq![COLON] + enc_sval(f.1)
}

pub open spec fn enc_sfields_inner(fs: Seq<(Seq<u8>, JValV)>) -> Seq<u8>
    decreases fs.len(),
{
    if fs.len() == 0 {
        Seq::<u8>::empty()
    } else if fs.len() == 1 {
        enc_sfield(fs[0])
    } else {
        enc_sfield(fs[0]) + seq![COMMA] + enc_sfields_inner(fs.drop_first())
    }
}

/// The canonical rendering of an object of simple values.
pub open spec fn enc_obj(fs: Seq<(Seq<u8>, JValV)>) -> Seq<u8> {
    seq![LBR] + enc_sfields_inner(fs) + seq![RBR]
}

pub open spec fn enc_efield(f: (Seq<u8>, EValV)) -> Seq<u8> {
    enc_str(f.0) + seq![COLON] + (match f.1 {
        EValV::Sv(v) => enc_sval(v),
        EValV::Obj(bfs) => enc_obj(bfs),
    })
}

pub open spec fn enc_efields_inner(fs: Seq<(Seq<u8>, EValV)>) -> Seq<u8>
    decreases fs.len(),
{
    if fs.len() == 0 {
        Seq::<u8>::empty()
    } else if fs.len() == 1 {
        enc_efield(fs[0])
    } else {
        enc_efield(fs[0]) + seq![COMMA] + enc_efields_inner(fs.drop_first())
    }
}

/// The canonical rendering of a whole envelope object.
pub open spec fn enc_envelope(fs: Seq<(Seq<u8>, EValV)>) -> Seq<u8> {
    seq![LBR] + enc_efields_inner(fs) + seq![RBR]
}

/// Appending one member to an array extends its rendering by a comma (when
/// the array was non-empty) and the member's rendering.
pub proof fn lemma_enc_arr_inner_snoc(es: Seq<Seq<u8>>, e: Seq<u8>)
    ensures
        es.len() == 0 ==> enc_arr_inner(es.push(e)) == enc_str(e),
        es.len() > 0 ==> enc_arr_inner(es.push(e)) == enc_arr_inner(es) + seq![COMMA] + enc_str(e),
    decreases es.len(),
{
    let w = es.push(e);
    if es.len() == 0 {
        assert(w.len() == 1 && w[0] == e);
    } else if es.len() == 1 {
        assert(w.drop_first() =~= seq![e]);
        assert(enc_arr_inner(seq![e]) == enc_str(e));
        assert(w[0] == es[0]);
        assert(enc_arr_inner(w) == enc_str(es[0]) + seq![COMMA] + enc_str(e));
        assert(enc_arr_inner(es) == enc_str(es[0]));
    } else {
        assert(w.drop_first() =~= es.drop_first().push(e));
        lemma_enc_arr_inner_snoc(es.drop_first(), e);
        assert(w[0] == es[0]);
        assert(enc_arr_inner(w) == enc_str(w[0]) + seq![COMMA] + enc_arr_inner(w.drop_first()));
        assert(enc_arr_inner(es) == enc_str(es[0]) + seq![COMMA] + enc_arr_inner(es.drop_first()));
        assert(enc_str(es[0]) + seq![COMMA] + (enc_arr_inner(es.drop_first()) + seq![COMMA]
            + enc_str(e)) =~= (enc_str(es[0]) + seq![COMMA] + enc_arr_inner(es.drop_first()))
            + seq![COMMA] + enc_str(e));
    }
}

/// The same, for an object of simple values.
pub proof fn lemma_enc_sfields_inner_snoc(fs: Seq<(Seq<u8>, JValV)>, f: (Seq<u8>, JValV))
    ensures
        fs.len() == 0 ==> enc_sfields_inner(fs.push(f)) == enc_sfield(f),
        fs.len() > 0 ==> enc_sfields_inner(fs.push(f)) == enc_sfields_inner(fs) + seq![COMMA]
            + enc_sfield(f),
    decreases fs.len(),
{
    let w = fs.push(f);
    if fs.len() == 0 {
        assert(w.len() == 1 && w[0] == f);
    } else if fs.len() == 1 {
        assert(w.drop_first() =~= seq![f]);
        assert(enc_sfields_inner(seq![f]) == enc_sfield(f));
        assert(w[0] == fs[0]);
        assert(enc_sfields_inner(w) == enc_sfield(fs[0]) + seq![COMMA] + enc_sfield(f));
        assert(enc_sfields_inner(fs) == enc_sfield(fs[0]));
    } else {
        assert(w.drop_first() =~= fs.drop_first().push(f));
        lemma_enc_sfields_inner_snoc(fs.drop_first(), f);
        assert(w[0] == fs[0]);
        assert(enc_sfields_inner(w) == enc_sfield(w[0]) + seq![COMMA] + enc_sfields_inner(w.drop_first()));
        assert(enc_sfields_inner(fs) == enc_sfield(fs[0]) + seq![COMMA] + enc_sfields_inner(fs.drop_first()));
        assert(enc_sfield(fs[0]) + seq![COMMA] + (enc_sfields_inner(fs.drop_first()) + seq![COMMA]
            + enc_sfield(f)) =~= (enc_sfield(fs[0]) + seq![COMMA] + enc_sfields_inner(
            fs.drop_first(),
        )) + seq![COMMA] + enc_sfield(f));
    }
}

/// The same, at the envelope level.
pub proof fn lemma_enc_efields_inner_snoc(fs: Seq<(Seq<u8>, EValV)>, f: (Seq<u8>, EValV))
    ensures
        fs.len() == 0 ==> enc_efields_inner(fs.push(f)) == enc_efield(f),
        fs.len() > 0 ==> enc_efields_inner(fs.push(f)) == enc_efields_inner(fs) + seq![COMMA]
            + enc_efield(f),
    decreases fs.len(),
{
    let w = fs.push(f);
    if fs.len() == 0 {
        assert(w.len() == 1 && w[0] == f);
    } else if fs.len() == 1 {
        assert(w.drop_first() =~= seq![f]);
        assert(enc_efields_inner(seq![f]) == enc_efield(f));
        assert(w[0] == fs[0]);
        assert(enc_efields_inner(w) == enc_efield(fs[0]) + seq![COMMA] + enc_efield(f));
        assert(enc_efields_inner(fs) == enc_efield(fs[0]));
    } else {
        assert(w.drop_first() =~= fs.drop_first().push(f));
        lemma_enc_efields_inner_snoc(fs.drop_first(), f);
        assert(w[0] == fs[0]);
        assert(enc_efields_inner(w) == enc_efield(w[0]) + seq![COMMA] + enc_efields_inner(w.drop_first()));
        assert(enc_efields_inner(fs) == enc_efield(fs[0]) + seq![COMMA] + enc_efields_inner(fs.drop_first()));
        assert(enc_efield(fs[0]) + seq![COMMA] + (enc_efields_inner(fs.drop_first()) + seq![COMMA]
            + enc_efield(f)) =~= (enc_efield(fs[0]) + seq![COMMA] + enc_efields_inner(
            fs.drop_first(),
        )) + seq![COMMA] + enc_efield(f));
    }
}

// ---------------------------------------------------------------------------
// Executable printers.
// ---------------------------------------------------------------------------

/// Append the rendering of a simple value to `out`.
fn push_sval(out: &mut Vec<u8>, v: &JVal)
    ensures
        final(out)@ == old(out)@ + enc_sval(v@),
{
    match v {
        JVal::Null => {
            out.push(110);
            out.push(117);
            out.push(108);
            out.push(108);
            assert(out@ =~= old(out)@ + lit_null());
        },
        JVal::Int(n) => {
            push_u64(out, *n);
        },
        JVal::Str(t) => {
            push_str_value(out, t);
        },
        JVal::Arr(es) => {
            let ghost base = out@;
            let ghost esv = bytes_view(es@);
            out.push(LSQ);
            let mut k: usize = 0;
            while k < es.len()
                invariant
                    k <= es@.len(),
                    esv == bytes_view(es@),
                    out@ == base + seq![LSQ] + enc_arr_inner(esv.take(k as int)),
                decreases es@.len() - k,
            {
                let ghost pre = esv.take(k as int);
                if k > 0 {
                    out.push(COMMA);
                }
                push_str_value(out, &es[k]);
                proof {
                    assert(esv[k as int] == es@[k as int]@);
                    assert(esv.take(k + 1) =~= pre.push(esv[k as int]));
                    lemma_enc_arr_inner_snoc(pre, esv[k as int]);
                    assert(out@ =~= base + seq![LSQ] + enc_arr_inner(esv.take(k + 1)));
                }
                k = k + 1;
            }
            out.push(RSQ);
            proof {
                assert(esv.take(es@.len() as int) =~= esv);
                assert(out@ =~= base + enc_sval(v@));
            }
        },
    }
}

/// Append the rendering of an object of simple values to `out`.
pub(crate) fn push_obj(out: &mut Vec<u8>, fs: &Vec<(Vec<u8>, JVal)>)
    ensures
        final(out)@ == old(out)@ + enc_obj(sfields_view(fs@)),
{
    let ghost base = out@;
    let ghost fsv = sfields_view(fs@);
    out.push(LBR);
    let mut k: usize = 0;
    while k < fs.len()
        invariant
            k <= fs@.len(),
            fsv == sfields_view(fs@),
            out@ == base + seq![LBR] + enc_sfields_inner(fsv.take(k as int)),
        decreases fs@.len() - k,
    {
        let ghost pre = fsv.take(k as int);
        if k > 0 {
            out.push(COMMA);
        }
        push_str_value(out, &fs[k].0);
        out.push(COLON);
        push_sval(out, &fs[k].1);
        proof {
            assert(fsv[k as int] == (fs@[k as int].0@, fs@[k as int].1@));
            assert(fsv.take(k + 1) =~= pre.push(fsv[k as int]));
            lemma_enc_sfields_inner_snoc(pre, fsv[k as int]);
            assert(out@ =~= base + seq![LBR] + enc_sfields_inner(fsv.take(k + 1)));
        }
        k = k + 1;
    }
    out.push(RBR);
    proof {
        assert(fsv.take(fs@.len() as int) =~= fsv);
        assert(out@ =~= base + enc_obj(fsv));
    }
}

// ---------------------------------------------------------------------------
// Small byte-vector helpers.
// ---------------------------------------------------------------------------

/// Byte-for-byte equality of two byte vectors.
pub fn bytes_eq(a: &Vec<u8>, b: &Vec<u8>) -> (r: bool)
    ensures
        r == (a@ == b@),
{
    if a.len() != b.len() {
        return false;
    }
    let mut k: usize = 0;
    while k < a.len()
        invariant
            k <= a@.len(),
            a@.len() == b@.len(),
            forall|m: int| 0 <= m < k ==> a@[m] == b@[m],
        decreases a@.len() - k,
    {
        if a[k] != b[k] {
            return false;
        }
        k = k + 1;
    }
    proof {
        assert(a@ =~= b@);
    }
    true
}

/// A copy of a byte vector.
pub fn clone_bytes(v: &Vec<u8>) -> (r: Vec<u8>)
    ensures
        r@ == v@,
{
    let mut r: Vec<u8> = Vec::new();
    let mut k: usize = 0;
    while k < v.len()
        invariant
            k <= v@.len(),
            r@ == v@.take(k as int),
        decreases v@.len() - k,
    {
        r.push(v[k]);
        proof {
            assert(v@.take(k + 1) =~= v@.take(k as int).push(v@[k as int]));
        }
        k = k + 1;
    }
    proof {
        assert(v@.take(v@.len() as int) =~= v@);
    }
    r
}

/// A copy of a list of byte vectors.
pub fn clone_bytes_list(v: &Vec<Vec<u8>>) -> (r: Vec<Vec<u8>>)
    ensures
        bytes_view(r@) == bytes_view(v@),
{
    let mut r: Vec<Vec<u8>> = Vec::new();
    let mut k: usize = 0;
    while k < v.len()
        invariant
            k <= v@.len(),
            bytes_view(r@) == bytes_view(v@).take(k as int),
        decreases v@.len() - k,
    {
        let ghost pre = bytes_view(r@);
        r.push(clone_bytes(&v[k]));
        proof {
            assert(bytes_view(r@) =~= pre.push(v@[k as int]@));
            assert(bytes_view(v@).take(k + 1) =~= pre.push(v@[k as int]@));
        }
        k = k + 1;
    }
    proof {
        assert(bytes_view(v@).take(v@.len() as int) =~= bytes_view(v@));
    }
    r
}

// ---------------------------------------------------------------------------
// Round trip, token layer: a printed token parses back to what was printed.
// `matches_at` says that `part` stands in `full` at position `i`.
// ---------------------------------------------------------------------------

pub open spec fn matches_at(full: Seq<u8>, i: int, part: Seq<u8>) -> bool {
    &&& 0 <= i
    &&& i + part.len() <= full.len()
    &&& forall|k: int| 0 <= k < part.len() ==> full[i + k] == #[trigger] part[k]
}

pub proof fn lemma_matches_split(full: Seq<u8>, i: int, a: Seq<u8>, b: Seq<u8>)
    requires
        matches_at(full, i, a + b),
    ensures
        matches_at(full, i, a),
        matches_at(full, i + a.len(), b),
{
    assert forall|k: int| 0 <= k < a.len() implies full[i + k] == a[k] by {
        assert((a + b)[k] == a[k]);
    }
    assert forall|k: int| 0 <= k < b.len() implies full[i + a.len() + k] == b[k] by {
        assert((a + b)[a.len() + k] == b[k]);
    }
}

pub proof fn lemma_skip_ws_id(s: Seq<u8>, i: int)
    requires
        0 <= i,
        i < s.len() ==> !is_ws(s[i]),
    ensures
        skip_ws(s, i) == i,
{
}

/// A printed string body, followed by its closing quote, parses back to the
/// string.
pub proof fn lemma_parse_escaped(full: Seq<u8>, i: int, s: Seq<u8>)
    requires
        matches_at(full, i, escape(s) + seq![QU]),
    ensures
        parse_str_body(full, i) == Some((s, i + escape(s).len() + 1)),
    decreases s.len(),
{
    if s.len() == 0 {
        assert(escape(s) + seq![QU] =~= seq![QU]);
        assert(full[i] == (escape(s) + seq![QU])[0]);
        assert(full[i] == QU);
    } else {
        let c = s[0];
        let rest = s.drop_first();
        assert(escape(s) == escape1(c) + escape(rest));
        if c == QU || c == BSL {
            assert(escape1(c) =~= seq![BSL, c]);
            assert(escape(s) + seq![QU] =~= seq![BSL, c] + (escape(rest) + seq![QU]));
            lemma_matches_split(full, i, seq![BSL, c], escape(rest) + seq![QU]);
            assert(full[i] == seq![BSL, c][0]);
            assert(full[i + 1] == seq![BSL, c][1]);
            assert(unescape1(c) == Some(c));
            lemma_parse_escaped(full, i + 2, rest);
            assert(seq![c] + rest =~= s);
        } else {
            assert(escape1(c) =~= seq![c]);
            assert(escape(s) + seq![QU] =~= seq![c] + (escape(rest) + seq![QU]));
            lemma_matches_split(full, i, seq![c], escape(rest) + seq![QU]);
            assert(full[i] == seq![c][0]);
            lemma_parse_escaped(full, i + 1, rest);
            assert(seq![c] + rest =~= s);
        }
    }
}

/// A printed string value parses back to the string.
pub proof fn lemma_parse_enc_str(full: Seq<u8>, i: int, s: Seq<u8>)
    requires
        matches_at(full, i, enc_str(s)),
    ensures
        0 <= i < full.len(),
        full[i] == QU,
        parse_str_body(full, i + 1) == Some((s, i + enc_str(s).len())),
{
    assert(enc_str(s) =~= seq![QU] + (escape(s) + seq![QU]));
    lemma_matches_split(full, i, seq![QU], escape(s) + seq![QU]);
    assert(full[i] == seq![QU][0]);
    lemma_parse_escaped(full, i + 1, s);
}

pub proof fn lemma_digit_run_concat(full: Seq<u8>, i: int, d: Seq<u8>)
    requires
        matches_at(full, i, d),
        forall|k: int| 0 <= k < d.len() ==> is_digit(#[trigger] d[k]),
        i + d.len() < full.len(),
        !is_digit(full[i + d.len()]),
    ensures
        digit_run_end(full, i) == i + d.len(),
    decreases d.len(),
{
    if d.len() == 0 {
    } else {
        assert(full[i] == d[0]);
        assert(d =~= seq![d[0]] + d.drop_first());
        lemma_matches_split(full, i, seq![d[0]], d.drop_first());
        assert(forall|k: int| 0 <= k < d.drop_first().len() ==> is_digit(
            #[trigger] d.drop_first()[k],
        ));
        lemma_digit_run_concat(full, i + 1, d.drop_first());
    }
}

/// A printed number, followed by a non-digit, parses back to the number.
pub proof fn lemma_parse_u64_enc(full: Seq<u8>, i: int, n: u64)
    requires
        matches_at(full, i, dec_digits(n as nat)),
        i + dec_digits(n as nat).len() < full.len(),
        !is_digit(full[i + dec_digits(n as nat).len()]),
    ensures
        parse_u64(full, i) == Some((n, i + dec_digits(n as nat).len())),
        is_digit(full[i]),
    decreases n,
{
    let d = dec_digits(n as nat);
    lemma_dec_digits(n as nat);
    lemma_digit_run_concat(full, i, d);
    assert(full.subrange(i, i + d.len()) =~= d);
}

// ---------------------------------------------------------------------------
// Round trip, value layer.
// ---------------------------------------------------------------------------

/// The first byte of a printed simple value: never whitespace, never a brace
/// or closing bracket, so the member parsers cannot mistake it.
pub proof fn lemma_enc_sval_shape(v: JValV)
    ensures
        enc_sval(v).len() >= 1,
        !is_ws(enc_sval(v)[0]),
        enc_sval(v)[0] != LBR,
        enc_sval(v)[0] != RBR,
        enc_sval(v)[0] != RSQ,
{
    match v {
        JValV::Null => {
            assert(enc_sval(v)[0] == 110);
        },
        JValV::Int(n) => {
            lemma_dec_digits(n as nat);
            assert(is_digit(enc_sval(v)[0]));
        },
        JValV::Str(t) => {
            assert(enc_sval(v)[0] == (seq![QU] + (escape(t) + seq![QU]))[0]);
            assert(enc_sval(v)[0] == QU);
        },
        JValV::Arr(es) => {
            assert(enc_sval(v)[0] == (seq![LSQ] + (enc_arr_inner(es) + seq![RSQ]))[0]);
            assert(enc_sval(v)[0] == LSQ);
        },
    }
}

/// A printed non-empty array member list, followed by its closing bracket,
/// parses back to the members.
pub proof fn lemma_parse_arr_items_enc(full: Seq<u8>, i: int, es: Seq<Seq<u8>>)
    requires
        es.len() >= 1,
        matches_at(full, i, enc_arr_inner(es) + seq![RSQ]),
    ensures
        parse_arr_items(full, i) == Some((es, i + enc_arr_inner(es).len() + 1)),
    decreases es.len(),
{
    if es.len() == 1 {
        assert(enc_arr_inner(es) == enc_str(es[0]));
        lemma_matches_split(full, i, enc_str(es[0]), seq![RSQ]);
        lemma_parse_enc_str(full, i, es[0]);
        let j = i + enc_str(es[0]).len();
        assert(full[j] == seq![RSQ][0]);
        lemma_skip_ws_id(full, i);
        lemma_skip_ws_id(full, j);
        assert(seq![es[0]] =~= es);
    } else {
        assert(enc_arr_inner(es) == enc_str(es[0]) + seq![COMMA] + enc_arr_inner(es.drop_first()));
        assert(enc_arr_inner(es) + seq![RSQ] =~= enc_str(es[0]) + (seq![COMMA] + (enc_arr_inner(
            es.drop_first(),
        ) + seq![RSQ])));
        lemma_matches_split(full, i, enc_str(es[0]), seq![COMMA] + (enc_arr_inner(es.drop_first())
            + seq![RSQ]));
        lemma_parse_enc_str(full, i, es[0]);
        let j = i + enc_str(es[0]).len();
        lemma_matches_split(full, j, seq![COMMA], enc_arr_inner(es.drop_first()) + seq![RSQ]);
        assert(full[j] == seq![COMMA][0]);
        lemma_skip_ws_id(full, i);
        lemma_skip_ws_id(full, j);
        lemma_parse_arr_items_enc(full, j + 1, es.drop_first());
        assert(seq![es[0]] + es.drop_first() =~= es);
    }
}

/// A printed simple value, followed by a non-digit, parses back to the value.
pub proof fn lemma_parse_sval_enc(full: Seq<u8>, i: int, v: JValV)
    requires
        matches_at(full, i, enc_sval(v)),
        i + enc_sval(v).len() < full.len(),
        !is_digit(full[i + enc_sval(v).len()]),
    ensures
        parse_sval(full, i) == Some((v, i + enc_sval(v).len())),
{
    lemma_enc_sval_shape(v);
    match v {
        JValV::Null => {
            assert(full[i] == lit_null()[0]);
            assert(full[i + 1] == lit_null()[1]);
            assert(full[i + 2] == lit_null()[2]);
            assert(full[i + 3] == lit_null()[3]);
        },
        JValV::Int(n) => {
            lemma_parse_u64_enc(full, i, n);
            assert(full[i] != QU);
        },
        JValV::Str(t) => {
            lemma_parse_enc_str(full, i, t);
        },
        JValV::Arr(es) => {
            assert(enc_sval(v) =~= seq![LSQ] + (enc_arr_inner(es) + seq![RSQ]));
            lemma_matches_split(full, i, seq![LSQ], enc_arr_inner(es) + seq![RSQ]);
            assert(full[i] == seq![LSQ][0]);
            if es.len() == 0 {
                assert(enc_arr_inner(es) + seq![RSQ] =~= seq![RSQ]);
                assert(full[i + 1] == seq![RSQ][0]);
                lemma_skip_ws_id(full, i + 1);
            } else {
                lemma_parse_arr_items_enc(full, i + 1, es);
                assert(full[i + 1] == (enc_arr_inner(es) + seq![RSQ])[0]);
                assert(enc_arr_inner(es)[0] == (enc_str(es[0]))[0]) by {
                    if es.len() == 1 {
                    } else {
                        assert(enc_arr_inner(es) == enc_str(es[0]) + seq![COMMA] + enc_arr_inner(
                            es.drop_first(),
                        ));
                    }
                }
                assert(enc_str(es[0])[0] == (seq![QU] + (escape(es[0]) + seq![QU]))[0]);
                assert(full[i + 1] == QU);
                lemma_skip_ws_id(full, i + 1);
            }
        },
    }
}

// ---------------------------------------------------------------------------
// Round trip, member-list layer.
// ---------------------------------------------------------------------------

/// A printed non-empty member list of simple values, followed by the closing
/// brace, parses back to the members.
pub proof fn lemma_parse_sfields_enc(full: Seq<u8>, i: int, fs: Seq<(Seq<u8>, JValV)>)
    requires
        fs.len() >= 1,
        matches_at(full, i, enc_sfields_inner(fs) + seq![RBR]),
    ensures
        parse_sfields_more(full, i) == Some((fs, i + enc_sfields_inner(fs).len() + 1)),
    decreases fs.len(),
{
    let f = fs[0];
    lemma_enc_sval_shape(f.1);
    let tail: Seq<u8> = if fs.len() == 1 {
        seq![RBR]
    } else {
        seq![COMMA] + (enc_sfields_inner(fs.drop_first()) + seq![RBR])
    };
    if fs.len() == 1 {
        assert(enc_sfields_inner(fs) == enc_sfield(f));
    } else {
        assert(enc_sfields_inner(fs) == enc_sfield(f) + seq![COMMA] + enc_sfields_inner(
            fs.drop_first(),
        ));
    }
    assert(enc_sfields_inner(fs) + seq![RBR] =~= enc_str(f.0) + (seq![COLON] + (enc_sval(f.1)
        + tail)));
    lemma_matches_split(full, i, enc_str(f.0), seq![COLON] + (enc_sval(f.1) + tail));
    lemma_parse_enc_str(full, i, f.0);
    lemma_skip_ws_id(full, i);
    let j = i + enc_str(f.0).len();
    lemma_matches_split(full, j, seq![COLON], enc_sval(f.1) + tail);
    assert(full[j] == seq![COLON][0]);
    lemma_skip_ws_id(full, j);
    lemma_matches_split(full, j + 1, enc_sval(f.1), tail);
    assert(full[j + 1] == enc_sval(f.1)[0]);
    lemma_skip_ws_id(full, j + 1);
    let l = j + 1 + enc_sval(f.1).len();
    assert(full[l] == tail[0]);
    lemma_parse_sval_enc(full, j + 1, f.1);
    lemma_skip_ws_id(full, l);
    if fs.len() == 1 {
        assert(seq![(f.0, f.1)] =~= fs);
    } else {
        lemma_matches_split(full, l, seq![COMMA], enc_sfields_inner(fs.drop_first()) + seq![RBR]);
        lemma_parse_sfields_enc(full, l + 1, fs.drop_first());
        assert(seq![(f.0, f.1)] + fs.drop_first() =~= fs);
    }
}

/// The first byte of a printed non-empty member list is the key's quote.
pub proof fn lemma_enc_sfields_first(fs: Seq<(Seq<u8>, JValV)>)
    requires
        fs.len() >= 1,
    ensures
        enc_sfields_inner(fs).len() >= 1,
        enc_sfields_inner(fs)[0] == QU,
{
    if fs.len() == 1 {
        assert(enc_sfields_inner(fs) == enc_sfield(fs[0]));
    } else {
        assert(enc_sfields_inner(fs) == enc_sfield(fs[0]) + seq![COMMA] + enc_sfields_inner(
            fs.drop_first(),
        ));
    }
    assert(enc_sfield(fs[0])[0] == (seq![QU] + (escape(fs[0].0) + seq![QU]))[0]);
}

/// A printed member list of simple values (possibly empty), followed by the
/// closing brace, parses back to the members; `i` stands just after `{`.
pub proof fn lemma_parse_obj_enc(full: Seq<u8>, i: int, fs: Seq<(Seq<u8>, JValV)>)
    requires
        matches_at(full, i, enc_sfields_inner(fs) + seq![RBR]),
    ensures
        parse_sfields(full, i) == Some((fs, i + enc_sfields_inner(fs).len() + 1)),
{
    if fs.len() == 0 {
        assert(enc_sfields_inner(fs) + seq![RBR] =~= seq![RBR]);
        assert(full[i] == seq![RBR][0]);
        lemma_skip_ws_id(full, i);
        assert(Seq::<(Seq<u8>, JValV)>::empty() =~= fs);
    } else {
        lemma_enc_sfields_first(fs);
        assert(full[i] == (enc_sfields_inner(fs) + seq![RBR])[0]);
        lemma_skip_ws_id(full, i);
        lemma_parse_sfields_enc(full, i, fs);
    }
}

/// A printed non-empty envelope member list, followed by the closing brace,
/// parses back to the members.
pub proof fn lemma_parse_efields_enc(full: Seq<u8>, i: int, fs: Seq<(Seq<u8>, EValV)>)
    requires
        fs.len() >= 1,
        matches_at(full, i, enc_efields_inner(fs) + seq![RBR]),
    ensures
        parse_efields_more(full, i) == Some((fs, i + enc_efields_inner(fs).len() + 1)),
    decreases fs.len(),
{
    let f = fs[0];
    let ev: Seq<u8> = match f.1 {
        EValV::Sv(v) => enc_sval(v),
        EValV::Obj(bfs) => enc_obj(bfs),
    };
    let tail: Seq<u8> = if fs.len() == 1 {
        seq![RBR]
    } else {
        seq![COMMA] + (enc_efields_inner(fs.drop_first()) + seq![RBR])
    };
    if fs.len() == 1 {
        assert(enc_efields_inner(fs) == enc_efield(f));
    } else {
        assert(enc_efields_inner(fs) == enc_efield(f) + seq![COMMA] + enc_efields_inner(
            fs.drop_first(),
        ));
    }
    assert(enc_efields_inner(fs) + seq![RBR] =~= enc_str(f.0) + (seq![COLON] + (ev + tail)));
    lemma_matches_split(full, i, enc_str(f.0), seq![COLON] + (ev + tail));
    lemma_parse_enc_str(full, i, f.0);
    lemma_skip_ws_id(full, i);
    let j = i + enc_str(f.0).len();
    lemma_matches_split(full, j, seq![COLON], ev + tail);
    assert(full[j] == seq![COLON][0]);
    lemma_skip_ws_id(full, j);
    lemma_matches_split(full, j + 1, ev, tail);
    let l = j + 1 + ev.len();
    assert(full[l] == tail[0]);
    match f.1 {
        EValV::Sv(v) => {
            lemma_enc_sval_shape(v);
            assert(full[j + 1] == enc_sval(v)[0]);
            lemma_skip_ws_id(full, j + 1);
            lemma_parse_sval_enc(full, j + 1, v);
        },
        EValV::Obj(bfs) => {
            assert(enc_obj(bfs) =~= seq![LBR] + (enc_sfields_inner(bfs) + seq![RBR]));
            lemma_matches_split(full, j + 1, seq![LBR], enc_sfields_inner(bfs) + seq![RBR]);
            assert(full[j + 1] == seq![LBR][0]);
            lemma_skip_ws_id(full, j + 1);
            lemma_parse_obj_enc(full, j + 2, bfs);
        },
    }
    lemma_skip_ws_id(full, l);
    if fs.len() == 1 {
        assert(seq![(f.0, f.1)] =~= fs);
    } else {
        lemma_matches_split(full, l, seq![COMMA], enc_efields_inner(fs.drop_first()) + seq![RBR]);
        lemma_parse_efields_enc(full, l + 1, fs.drop_first());
        assert(seq![(f.0, f.1)] + fs.drop_first() =~= fs);
    }
}

/// A printed envelope parses back to its member list, whole-line.
pub proof fn lemma_parse_envelope_enc(fs: Seq<(Seq<u8>, EValV)>)
    requires
        fs.len() >= 1,
    ensures
        parse_envelope(enc_envelope(fs)) == Some(fs),
{
    let full = enc_envelope(fs);
    assert(matches_at(full, 0, full));
    assert(full =~= seq![LBR] + (enc_efields_inner(fs) + seq![RBR]));
    lemma_matches_split(full, 0, seq![LBR], enc_efields_inner(fs) + seq![RBR]);
    assert(full[0] == seq![LBR][0]);
    lemma_skip_ws_id(full, 0);
    let f = fs[0];
    if fs.len() == 1 {
        assert(enc_efields_inner(fs) == enc_efield(f));
    } else {
        assert(enc_efields_inner(fs) == enc_efield(f) + seq![COMMA] + enc_efields_inner(
            fs.drop_first(),
        ));
    }
    assert(enc_efield(f)[0] == (seq![QU] + (escape(f.0) + seq![QU]))[0]);
    assert(full[1] == (enc_efields_inner(fs) + seq![RBR])[0]);
    assert(full[1] == QU);
    lemma_skip_ws_id(full, 1);
    lemma_parse_efields_enc(full, 1, fs);
    lemma_skip_ws_id(full, full.len() as int);
}

} // verus!
