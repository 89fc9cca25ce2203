//! Small verified text helpers: string equality and prefixes, the
//! ASCII-whitespace token scan used by the command protocol, decimal
//! rendering of counts, and the lexicographic order used when listing rooms.

use vstd::prelude::*;
use vstd::string::StrSliceExecFns;
use vstd::string::StringExecFns;

verus! {

// ---------------------------------------------------------------------------
// Equality and prefixes
// ---------------------------------------------------------------------------
/// Character-for-character string equality.
pub fn str_eq(a: &str, b: &str) -> (r: bool)
    ensures
        r == (a@ == b@),
{
    let na = a.unicode_len();
    let nb = b.unicode_len();
    if na != nb {
        return false;
    }
    let mut i: usize = 0;
    while i < na
        invariant
            0 <= i <= na,
            na == a@.len(),
            na == b@.len(),
            forall|j: int| 0 <= j < i ==> a@[j] == b@[j],
        decreases na - i,
    {
        if a.get_char(i) != b.get_char(i) {
            return false;
        }
        i = i + 1;
    }
    proof {
        assert(a@ =~= b@);
    }
    true
}

/// `p` stands at the front of `s`.
pub open spec fn is_prefix_of(p: Seq<char>, s: Seq<char>) -> bool {
    &&& p.len() <= s.len()
    &&& forall|i: int| 0 <= i < p.len() ==> s[i] == p[i]
}

/// Whether `s` begins with `p`.
pub fn has_prefix(s: &str, p: &str) -> (r: bool)
    ensures
        r == is_prefix_of(p@, s@),
{
    let ns = s.unicode_len();
    let np = p.unicode_len();
    if np > ns {
        return false;
    }
    let mut i: usize = 0;
    while i < np
        invariant
            0 <= i <= np,
            ns == s@.len(),
            np == p@.len(),
            np <= ns,
            forall|j: int| 0 <= j < i ==> s@[j] == p@[j],
        decreases np - i,
    {
        if s.get_char(i) != p.get_char(i) {
            return false;
        }
        i = i + 1;
    }
    true
}

// ---------------------------------------------------------------------------
// ASCII-whitespace token scanning
// ---------------------------------------------------------------------------
/// The characters that separate protocol tokens.
pub open spec fn is_ascii_ws(c: char) -> bool {
    c == ' ' || c == '\t' || c == '\n' || c == '\r' || c == '\x0C'
}

/// Runtime check for a token separator.
pub fn ws_char(c: char) -> (r: bool)
    ensures
        r == is_ascii_ws(c),
{
    c == ' ' || c == '\t' || c == '\n' || c == '\r' || c == '\x0C'
}

/// Index of the first non-whitespace character at or after `i`.
pub open spec fn skip_ws(s: Seq<char>, i: int) -> int
    decreases s.len() - i when 0 <= i <= s.len()
{
    if i >= s.len() {
        i
    } else if is_ascii_ws(s[i]) {
        skip_ws(s, i + 1)
    } else {
        i
    }
}

/// Index of the first whitespace character at or after `i`.
pub open spec fn skip_token(s: Seq<char>, i: int) -> int
    decreases s.len() - i when 0 <= i <= s.len()
{
    if i >= s.len() {
        i
    } else if !is_ascii_ws(s[i]) {
        skip_token(s, i + 1)
    } else {
        i
    }
}

pub fn scan_ws(s: &str, from: usize) -> (r: usize)
    requires
        from <= s@.len(),
    ensures
        r == skip_ws(s@, from as int),
        from <= r <= s@.len(),
    decreases s@.len() - from,
{
    let n = s.unicode_len();
    if from >= n {
        return from;
    }
    if ws_char(s.get_char(from)) {
        scan_ws(s, from + 1)
    } else {
        from
    }
}

pub fn scan_token(s: &str, from: usize) -> (r: usize)
    requires
        from <= s@.len(),
    ensures
        r == skip_token(s@, from as int),
        from <= r <= s@.len(),
    decreases s@.len() - from,
{
    let n = s.unicode_len();
    if from >= n {
        return from;
    }
    if !ws_char(s.get_char(from)) {
        scan_token(s, from + 1)
    } else {
        from
    }
}

/// The first whitespace-separated token of `s`, if any.
pub open spec fn spec_first_token(s: Seq<char>) -> Option<Seq<char>> {
    let a = skip_ws(s, 0);
    let b = skip_token(s, a);
    if a < s.len() {
        Some(s.subrange(a, b))
    } else {
        None
    }
}

/// The second whitespace-separated token of `s`, if any: the argument
/// position of the `/name` and `/join` commands.
pub open spec fn spec_second_token(s: Seq<char>) -> Option<Seq<char>> {
    let a = skip_ws(s, 0);
    let b = skip_token(s, a);
    let c = skip_ws(s, b);
    let d = skip_token(s, c);
    if c < s.len() {
        Some(s.subrange(c, d))
    } else {
        None
    }
}

pub fn first_token<'a>(s: &'a str) -> (r: Option<&'a str>)
    ensures
        match r {
            Some(t) => spec_first_token(s@) == Some(t@),
            None => spec_first_token(s@) is None,
        },
{
    let n = s.unicode_len();
    let a = scan_ws(s, 0);
    if a >= n {
        return None;
    }
    let b = scan_token(s, a);
    Some(s.substring_char(a, b))
}

pub fn second_token<'a>(s: &'a str) -> (r: Option<&'a str>)
    ensures
        match r {
            Some(t) => spec_second_token(s@) == Some(t@),
            None => spec_second_token(s@) is None,
        },
{
    let n = s.unicode_len();
    let a = scan_ws(s, 0);
    let b = scan_token(s, a);
    let c = scan_ws(s, b);
    if c >= n {
        return None;
    }
    let d = scan_token(s, c);
    Some(s.substring_char(c, d))
}

// ---------------------------------------------------------------------------
// Decimal rendering
// ---------------------------------------------------------------------------
/// The character for one decimal digit.
pub open spec fn digit_char(d: int) -> char {
    if d == 0 {
        '0'
    } else if d == 1 {
        '1'
    } else if d == 2 {
        '2'
    } else if d == 3 {
        '3'
    } else if d == 4 {
        '4'
    } else if d == 5 {
        '5'
    } else if d == 6 {
        '6'
    } else if d == 7 {
        '7'
    } else if d == 8 {
        '8'
    } else {
        '9'
    }
}

/// The usual decimal rendering of `n`, most significant digit first.
pub open spec fn dec_seq(n: nat) -> Seq<char>
    decreases n,
{
    if n < 10 {
        seq![digit_char(n as int)]
    } else {
        dec_seq(n / 10).push(digit_char((n % 10) as int))
    }
}

fn digit_str(d: u64) -> (r: &'static str)
    requires
        d < 10,
    ensures
        r@ == seq![digit_char(d as int)],
{
    let r: &'static str = if d == 0 {
        "0"
    } else if d == 1 {
        "1"
    } else if d == 2 {
        "2"
    } else if d == 3 {
        "3"
    } else if d == 4 {
        "4"
    } else if d == 5 {
        "5"
    } else if d == 6 {
        "6"
    } else if d == 7 {
        "7"
    } else if d == 8 {
        "8"
    } else {
        "9"
    };
    proof {
        reveal_strlit("0");
        reveal_strlit("1");
        reveal_strlit("2");
        reveal_strlit("3");
        reveal_strlit("4");
        reveal_strlit("5");
        reveal_strlit("6");
        reveal_strlit("7");
        reveal_strlit("8");
        reveal_strlit("9");
        assert(r@ =~= seq![digit_char(d as int)]);
    }
    r
}

/// Renders `n` in decimal.
pub fn decimal(n: u64) -> (r: String)
    ensures
        r@ == dec_seq(n as nat),
    decreases n,
{
    if n < 10 {
        String::from_str(digit_str(n))
    } else {
        let mut r = decimal(n / 10);
        r.append(digit_str(n % 10));
        proof {
            assert(dec_seq(n as nat) =~= dec_seq((n / 10) as nat) + seq![
                digit_char((n % 10) as int),
            ]);
        }
        r
    }
}

// ---------------------------------------------------------------------------
// Lexicographic order on character sequences
// ---------------------------------------------------------------------------
/// `a` comes at or before `b` in character order.
pub open spec fn lex_le(a: Seq<char>, b: Seq<char>) -> bool
    decreases a.len(),
{
    if a.len() == 0 {
        true
    } else if b.len() == 0 {
        false
    } else if a[0] != b[0] {
        a[0] < b[0]
    } else {
        lex_le(a.drop_first(), b.drop_first())
    }
}

/// The order relates every pair, one way or the other.
pub proof fn lemma_lex_le_total(a: Seq<char>, b: Seq<char>)
    ensures
        lex_le(a, b) || lex_le(b, a),
    decreases a.len(),
{
    if a.len() > 0 && b.len() > 0 && a[0] == b[0] {
        lemma_lex_le_total(a.drop_first(), b.drop_first());
    }
}

/// The order chains.
pub proof fn lemma_lex_le_trans(a: Seq<char>, b: Seq<char>, c: Seq<char>)
    requires
        lex_le(a, b),
        lex_le(b, c),
    ensures
        lex_le(a, c),
    decreases a.len(),
{
    if a.len() > 0 {
        assert(b.len() > 0);
        assert(c.len() > 0);
        if a[0] == b[0] && b[0] == c[0] {
            lemma_lex_le_trans(a.drop_first(), b.drop_first(), c.drop_first());
        }
    }
}

pub fn str_lex_le(a: &str, b: &str) -> (r: bool)
    ensures
        r == lex_le(a@, b@),
    decreases a@.len(),
{
    let na = a.unicode_len();
    let nb = b.unicode_len();
    if na == 0 {
        return true;
    }
    if nb == 0 {
        return false;
    }
    let ca = a.get_char(0);
    let cb = b.get_char(0);
    if ca != cb {
        ca < cb
    } else {
        let ra = a.substring_char(1, na);
        let rb = b.substring_char(1, nb);
        proof {
            assert(ra@ =~= a@.drop_first());
            assert(rb@ =~= b@.drop_first());
        }
        str_lex_le(ra, rb)
    }
}

/// Powers of ten, for bounding decimal lengths.
pub open spec fn pow10(b: nat) -> nat
    decreases b,
{
    if b == 0 {
        1
    } else {
        10 * pow10((b - 1) as nat)
    }
}

pub proof fn lemma_dec_seq_len_lower(n: nat)
    ensures
        1 <= dec_seq(n).len(),
        n >= 10 ==> 2 <= dec_seq(n).len(),
    decreases n,
{
    if n >= 10 {
        lemma_dec_seq_len_lower(n / 10);
    }
}

pub proof fn lemma_dec_seq_len_upper(n: nat, b: nat)
    requires
        b >= 1,
        n < pow10(b),
    ensures
        dec_seq(n).len() <= b,
    decreases n,
{
    if n >= 10 {
        if b == 1 {
            assert(pow10(0nat) == 1);
            assert(pow10(1nat) == 10);
            assert(false);
        } else {
            let p = pow10((b - 1) as nat);
            assert(n < 10 * p);
            assert(n == 10 * (n / 10) + n % 10) by (nonlinear_arith);
            assert(n / 10 < p) by {
                if n / 10 >= p {
                    assert(10 * (n / 10) >= 10 * p);
                    assert(false);
                }
            }
            lemma_dec_seq_len_upper(n / 10, (b - 1) as nat);
        }
    }
}

pub proof fn lemma_dec_seq_len_min(n: nat, b: nat)
    requires
        n >= pow10(b),
    ensures
        dec_seq(n).len() >= b + 1,
    decreases b,
{
    if b > 0 {
        let p = pow10((b - 1) as nat);
        assert(n >= 10 * p);
        assert(p >= 1) by {
            lemma_pow10_at_least_one((b - 1) as nat);
        }
        assert(n >= 10);
        assert(n == 10 * (n / 10) + n % 10) by (nonlinear_arith);
        assert(n / 10 >= p) by {
            if n / 10 < p {
                assert(10 * (n / 10) <= 10 * (p - 1));
                assert(false);
            }
        }
        lemma_dec_seq_len_min(n / 10, (b - 1) as nat);
    }
}

pub proof fn lemma_pow10_at_least_one(b: nat)
    ensures
        pow10(b) >= 1,
    decreases b,
{
    if b > 0 {
        lemma_pow10_at_least_one((b - 1) as nat);
    }
}

/// Every character of a decimal rendering is a digit, so a name character.
pub proof fn lemma_dec_seq_digits(n: nat)
    ensures
        forall|i: int|
            0 <= i < dec_seq(n).len() ==> crate::name_rules::is_name_char(#[trigger] dec_seq(n)[i]),
    decreases n,
{
    if n >= 10 {
        lemma_dec_seq_digits(n / 10);
        let pre = dec_seq(n / 10);
        let d = digit_char((n % 10) as int);
        assert(dec_seq(n) == pre.push(d));
        assert forall|i: int|
            0 <= i < dec_seq(n).len() implies crate::name_rules::is_name_char(
            #[trigger] dec_seq(n)[i],
        ) by {
            if i < pre.len() {
                assert(dec_seq(n)[i] == pre[i]);
            } else {
                assert(dec_seq(n)[i] == d);
            }
        }
    } else {
        assert(dec_seq(n) == seq![digit_char(n as int)]);
        assert(crate::name_rules::is_name_char(dec_seq(n)[0]));
    }
}

/// Distinct numbers render to distinct decimal strings.
pub proof fn lemma_dec_seq_injective(a: nat, b: nat)
    requires
        dec_seq(a) == dec_seq(b),
    ensures
        a == b,
    decreases a,
{
    lemma_dec_seq_len_lower(a);
    lemma_dec_seq_len_lower(b);
    if a < 10 && b < 10 {
        assert(dec_seq(a) == seq![digit_char(a as int)]);
        assert(dec_seq(b) == seq![digit_char(b as int)]);
        assert(seq![digit_char(a as int)][0] == digit_char(a as int));
        assert(seq![digit_char(b as int)][0] == digit_char(b as int));
        assert(dec_seq(a)[0] == dec_seq(b)[0]);
        assert(digit_char(a as int) == digit_char(b as int));
        assert(a == b);
    } else if a < 10 && b >= 10 {
        assert(false);
    } else if a >= 10 && b < 10 {
        assert(false);
    } else {
        let pa = dec_seq(a / 10);
        let pb = dec_seq(b / 10);
        let da = digit_char((a % 10) as int);
        let db = digit_char((b % 10) as int);
        assert(dec_seq(a) == pa.push(da));
        assert(dec_seq(b) == pb.push(db));
        assert(pa.len() + 1 == pb.len() + 1);
        assert(da == dec_seq(a)[pa.len() as int]);
        assert(db == dec_seq(b)[pb.len() as int]);
        assert(da == db);
        assert(a % 10 == b % 10);
        assert(pa =~= pb) by {
            assert(forall|i: int| 0 <= i < pa.len() ==> pa[i] == dec_seq(a)[i] && pb[i]
                == dec_seq(b)[i]);
        }
        lemma_dec_seq_injective(a / 10, b / 10);
        assert(a == 10 * (a / 10) + a % 10) by (nonlinear_arith);
        assert(b == 10 * (b / 10) + b % 10) by (nonlinear_arith);
        assert(a == b);
    }
}

} // verus!
