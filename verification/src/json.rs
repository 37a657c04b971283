//! A small JSON document model with a verified printer and parser.
//!
//! The wire dialects of the gateway are JSON. Numbers are carried as exact
//! decimals — a sign, an integer part and a fixed number of fraction digits —
//! never as floating point, so a value prints back to exactly the digits it
//! was parsed from.

use vstd::prelude::*;

verus! {

/// `10^n`.
pub open spec fn pow10(n: nat) -> nat
    decreases n,
{
    if n == 0 {
        1
    } else {
        10 * pow10((n - 1) as nat)
    }
}

/// An exact decimal number: `-? int_part . frac` with `frac_len` fraction
/// digits (`frac_len == 0` means an integer with no point).
#[derive(Clone, Copy, Debug, PartialEq, Eq, Structural)]
pub struct Dec {
    pub neg: bool,
    pub int_part: u64,
    pub frac: u64,
    pub frac_len: u8,
}

impl View for Dec {
    type V = Dec;

    open spec fn view(&self) -> Dec {
        *self
    }
}

/// Canonical decimal: the fraction fits its digit count, and both parts stay
/// within nineteen digits, so every canonical decimal prints and reparses to
/// itself.
pub open spec fn dec_wf(d: Dec) -> bool {
    &&& d.frac_len <= 18
    &&& (d.frac as nat) < pow10(d.frac_len as nat)
    &&& (d.int_part as nat) < pow10(19)
}

impl Dec {
    /// An integer value.
    pub fn from_int(neg: bool, int_part: u64) -> (r: Dec)
        requires
            int_part < 10_000_000_000_000_000_000u64,
        ensures
            r == (Dec { neg, int_part, frac: 0, frac_len: 0 }),
            dec_wf(r),
    {
        proof {
            lemma_pow10_19();
        }
        Dec { neg, int_part, frac: 0, frac_len: 0 }
    }

    /// Zero, written `0.0`.
    pub fn zero() -> (r: Dec)
        ensures
            r == (Dec { neg: false, int_part: 0, frac: 0, frac_len: 1 }),
            dec_wf(r),
    {
        proof {
            lemma_pow10_19();
        }
        Dec { neg: false, int_part: 0, frac: 0, frac_len: 1 }
    }

}

pub proof fn lemma_pow10_19()
    ensures
        pow10(19) == 10_000_000_000_000_000_000,
        pow10(18) == 1_000_000_000_000_000_000,
        pow10(0) == 1,
        pow10(1) == 10,
        pow10(2) == 100,
{
    assert(pow10(0) == 1);
    assert(pow10(1) == 10);
    assert(pow10(2) == 100);
    assert(pow10(3) == 1000);
    assert(pow10(4) == 10_000);
    assert(pow10(5) == 100_000);
    assert(pow10(6) == 1_000_000);
    assert(pow10(7) == 10_000_000);
    assert(pow10(8) == 100_000_000);
    assert(pow10(9) == 1_000_000_000);
    assert(pow10(10) == 10_000_000_000);
    assert(pow10(11) == 100_000_000_000);
    assert(pow10(12) == 1_000_000_000_000);
    assert(pow10(13) == 10_000_000_000_000);
    assert(pow10(14) == 100_000_000_000_000);
    assert(pow10(15) == 1_000_000_000_000_000);
    assert(pow10(16) == 10_000_000_000_000_000);
    assert(pow10(17) == 100_000_000_000_000_000);
    assert(pow10(18) == 1_000_000_000_000_000_000);
    assert(pow10(19) == 10_000_000_000_000_000_000);
}

/// A JSON document value.
///
/// Strings carry their contents raw; the printer and parser handle only
/// strings that need no escaping (see `json_safe`), which covers every id and
/// message this gateway writes, and a parse that meets an escape fails
/// cleanly rather than guessing.
pub enum JVal {
    Null,
    Bool(bool),
    Num(Dec),
    Str(String),
    Arr(Vec<JVal>),
    Obj(Vec<(String, JVal)>),
}

/// The mathematical value of a JSON document.
#[verifier::ext_equal]
pub enum JSpec {
    Null,
    Bool(bool),
    Num(Dec),
    Str(Seq<char>),
    Arr(Seq<JSpec>),
    Obj(Seq<(Seq<char>, JSpec)>),
}

impl JVal {
    /// The document's mathematical value, all the way down.
    pub open spec fn deep(&self) -> JSpec
        decreases self,
    {
        match self {
            JVal::Null => JSpec::Null,
            JVal::Bool(b) => JSpec::Bool(*b),
            JVal::Num(d) => JSpec::Num(*d),
            JVal::Str(s) => JSpec::Str(s@),
            JVal::Arr(items) => JSpec::Arr(deep_list(items@)),
            JVal::Obj(fields) => JSpec::Obj(deep_fields(fields@)),
        }
    }
}

/// The mathematical values of a vector of documents.
pub open spec fn deep_list(items: Seq<JVal>) -> Seq<JSpec>
    decreases items,
{
    Seq::new(
        items.len(),
        |q: int|
            if 0 <= q < items.len() {
                items[q].deep()
            } else {
                JSpec::Null
            },
    )
}

/// The mathematical values of a vector of members.
pub open spec fn deep_fields(fields: Seq<(String, JVal)>) -> Seq<(Seq<char>, JSpec)>
    decreases fields,
{
    Seq::new(
        fields.len(),
        |q: int|
            if 0 <= q < fields.len() {
                (fields[q].0@, fields[q].1.deep())
            } else {
                (Seq::empty(), JSpec::Null)
            },
    )
}

/// Canonical document: every string is embeddable unescaped and every number
/// is a canonical decimal. Canonical documents print and reparse to
/// themselves.
pub open spec fn jspec_canon(v: JSpec) -> bool
    decreases v,
{
    match v {
        JSpec::Null => true,
        JSpec::Bool(b) => true,
        JSpec::Num(d) => dec_wf(d),
        JSpec::Str(t) => json_safe(t),
        JSpec::Arr(items) => forall|q: int|
            0 <= q < items.len() ==> jspec_canon(#[trigger] items[q]),
        JSpec::Obj(fields) => forall|q: int|
            0 <= q < fields.len() ==> json_safe((#[trigger] fields[q]).0) && jspec_canon(
                fields[q].1,
            ),
    }
}

/// The character for one decimal digit.
pub open spec fn digit_char(n: nat) -> char {
    if n == 0 {
        '0'
    } else if n == 1 {
        '1'
    } else if n == 2 {
        '2'
    } else if n == 3 {
        '3'
    } else if n == 4 {
        '4'
    } else if n == 5 {
        '5'
    } else if n == 6 {
        '6'
    } else if n == 7 {
        '7'
    } else if n == 8 {
        '8'
    } else {
        '9'
    }
}

/// The decimal digits of `n`, most significant first.
pub open spec fn print_u64(n: nat) -> Seq<char>
    decreases n,
{
    if n < 10 {
        seq![digit_char(n)]
    } else {
        print_u64(n / 10).push(digit_char(n % 10))
    }
}

/// Exactly `w` digits of `n`, zero-padded on the left.
pub open spec fn print_padded(n: nat, w: nat) -> Seq<char>
    decreases w,
{
    if w == 0 {
        Seq::empty()
    } else {
        print_padded(n / 10, (w - 1) as nat).push(digit_char(n % 10))
    }
}

/// The text of a decimal number.
pub open spec fn print_dec(d: Dec) -> Seq<char> {
    let sign: Seq<char> = if d.neg {
        seq!['-']
    } else {
        Seq::empty()
    };
    if d.frac_len == 0 {
        sign + print_u64(d.int_part as nat)
    } else {
        sign + print_u64(d.int_part as nat) + seq!['.'] + print_padded(
            d.frac as nat,
            d.frac_len as nat,
        )
    }
}

/// The text of a document.
pub open spec fn jprint(v: JSpec) -> Seq<char>
    decreases v, 0int, 0int,
{
    match v {
        JSpec::Null => seq!['n', 'u', 'l', 'l'],
        JSpec::Bool(b) => if b {
            seq!['t', 'r', 'u', 'e']
        } else {
            seq!['f', 'a', 'l', 's', 'e']
        },
        JSpec::Num(d) => print_dec(d),
        JSpec::Str(t) => seq!['"'] + t + seq!['"'],
        JSpec::Arr(items) => seq!['['] + jprint_items_upto(items, items.len() as int) + seq![']'],
        JSpec::Obj(fields) => seq!['{'] + jprint_fields_upto(fields, fields.len() as int)
            + seq!['}'],
    }
}

/// The comma-joined text of the first `k` array elements.
pub open spec fn jprint_items_upto(items: Seq<JSpec>, k: int) -> Seq<char>
    decreases items, 1int, k,
{
    if k <= 0 || k > items.len() {
        Seq::empty()
    } else if k == 1 {
        jprint(items[0])
    } else {
        jprint_items_upto(items, k - 1) + seq![','] + jprint(items[k - 1])
    }
}

/// The comma-joined text of the first `k` object members.
pub open spec fn jprint_fields_upto(fields: Seq<(Seq<char>, JSpec)>, k: int) -> Seq<char>
    decreases fields, 1int, k,
{
    if k <= 0 || k > fields.len() {
        Seq::empty()
    } else if k == 1 {
        seq!['"'] + fields[0].0 + seq!['"', ':'] + jprint(fields[0].1)
    } else {
        jprint_fields_upto(fields, k - 1) + seq![','] + seq!['"'] + fields[k - 1].0 + seq![
            '"',
            ':',
        ] + jprint(fields[k - 1].1)
    }
}

/// Pushes one digit character.
fn write_digit(n: u64, out: &mut Vec<char>)
    requires
        n < 10,
    ensures
        final(out)@ == old(out)@.push(digit_char(n as nat)),
{
    let c: char = if n == 0 {
        '0'
    } else if n == 1 {
        '1'
    } else if n == 2 {
        '2'
    } else if n == 3 {
        '3'
    } else if n == 4 {
        '4'
    } else if n == 5 {
        '5'
    } else if n == 6 {
        '6'
    } else if n == 7 {
        '7'
    } else if n == 8 {
        '8'
    } else {
        '9'
    };
    out.push(c);
}

/// Writes the digits of `n`.
pub fn write_u64(n: u64, out: &mut Vec<char>)
    ensures
        final(out)@ == old(out)@ + print_u64(n as nat),
    decreases n,
{
    if n < 10 {
        write_digit(n, out);
        proof {
            assert(final(out)@ =~= old(out)@ + print_u64(n as nat));
        }
    } else {
        write_u64(n / 10, out);
        write_digit(n % 10, out);
        proof {
            assert(final(out)@ =~= old(out)@ + print_u64(n as nat));
        }
    }
}

/// Writes exactly `w` zero-padded digits of `n`.
fn write_padded(n: u64, w: u8, out: &mut Vec<char>)
    ensures
        final(out)@ == old(out)@ + print_padded(n as nat, w as nat),
    decreases w,
{
    if w > 0 {
        write_padded(n / 10, w - 1, out);
        write_digit(n % 10, out);
        proof {
            assert(final(out)@ =~= old(out)@ + print_padded(n as nat, w as nat));
        }
    } else {
        proof {
            assert(final(out)@ =~= old(out)@ + print_padded(n as nat, 0));
        }
    }
}

/// Writes the text of a decimal number.
pub fn write_dec(d: &Dec, out: &mut Vec<char>)
    ensures
        final(out)@ == old(out)@ + print_dec(*d),
{
    if d.neg {
        out.push('-');
    }
    write_u64(d.int_part, out);
    if d.frac_len > 0 {
        out.push('.');
        write_padded(d.frac, d.frac_len, out);
    }
    proof {
        assert(final(out)@ =~= old(out)@ + print_dec(*d));
    }
}

/// Writes `"contents"`.
fn write_quoted(s: &str, out: &mut Vec<char>)
    ensures
        final(out)@ == old(out)@ + seq!['"'] + s@ + seq!['"'],
{
    out.push('"');
    let n: usize = s.unicode_len();
    let mut i: usize = 0;
    while i < n
        invariant
            0 <= i <= n,
            n == s@.len(),
            out@ =~= old(out)@ + seq!['"'] + s@.take(i as int),
        decreases n - i,
    {
        out.push(s.get_char(i));
        proof {
            assert(s@.take(i + 1 as int) =~= s@.take(i as int).push(s@[i as int]));
            assert(out@ =~= old(out)@ + seq!['"'] + s@.take(i + 1 as int));
        }
        i = i + 1;
    }
    out.push('"');
    proof {
        assert(s@.take(n as int) =~= s@);
        assert(final(out)@ =~= old(out)@ + seq!['"'] + s@ + seq!['"']);
    }
}

/// Writes the text of a document.
#[verifier::rlimit(100)]
pub fn write_jval(v: &JVal, out: &mut Vec<char>)
    ensures
        final(out)@ == old(out)@ + jprint(v.deep()),
    decreases v,
{
    match v {
        JVal::Null => {
            out.push('n');
            out.push('u');
            out.push('l');
            out.push('l');
            proof {
                assert(final(out)@ =~= old(out)@ + jprint(v.deep()));
            }
        },
        JVal::Bool(b) => {
            if *b {
                out.push('t');
                out.push('r');
                out.push('u');
                out.push('e');
            } else {
                out.push('f');
                out.push('a');
                out.push('l');
                out.push('s');
                out.push('e');
            }
            proof {
                assert(final(out)@ =~= old(out)@ + jprint(v.deep()));
            }
        },
        JVal::Num(d) => {
            write_dec(d, out);
        },
        JVal::Str(s) => {
            write_quoted(s.as_str(), out);
            proof {
                assert(final(out)@ =~= old(out)@ + jprint(v.deep()));
            }
        },
        JVal::Arr(items) => {
            let ghost dit = (match v.deep() {
                JSpec::Arr(x) => x,
                _ => Seq::empty(),
            });
            out.push('[');
            let n = items.len();
            let mut q: usize = 0;
            while q < n
                invariant
                    0 <= q <= n,
                    n == items@.len(),
                    dit.len() == n,
                    forall|w: int| 0 <= w < n ==> dit[w] == items@[w].deep(),
                    out@ =~= old(out)@ + seq!['['] + jprint_items_upto(dit, q as int),
                decreases n - q,
            {
                if q > 0 {
                    out.push(',');
                }
                let ghost pre = out@;
                write_jval(&items[q], out);
                proof {
                    assert(out@ =~= pre + jprint(dit[q as int]));
                    assert(out@ =~= old(out)@ + seq!['['] + jprint_items_upto(
                        dit,
                        q + 1 as int,
                    ));
                }
                q = q + 1;
            }
            out.push(']');
            proof {
                assert(final(out)@ =~= old(out)@ + jprint(v.deep()));
            }
        },
        JVal::Obj(fields) => {
            let ghost dft = (match v.deep() {
                JSpec::Obj(x) => x,
                _ => Seq::empty(),
            });
            out.push('{');
            let n = fields.len();
            let mut q: usize = 0;
            while q < n
                invariant
                    0 <= q <= n,
                    n == fields@.len(),
                    dft.len() == n,
                    forall|w: int|
                        0 <= w < n ==> dft[w].0 == fields@[w].0@ && dft[w].1 == fields@[w].1.deep(),
                    out@ =~= old(out)@ + seq!['{'] + jprint_fields_upto(dft, q as int),
                decreases n - q,
            {
                if q > 0 {
                    out.push(',');
                }
                let ghost pre = out@;
                write_quoted(fields[q].0.as_str(), out);
                out.push(':');
                write_jval(&fields[q].1, out);
                proof {
                    assert(out@ =~= pre + seq!['"'] + dft[q as int].0 + seq!['"', ':'] + jprint(
                        dft[q as int].1,
                    ));
                    assert(out@ =~= old(out)@ + seq!['{'] + jprint_fields_upto(
                        dft,
                        q + 1 as int,
                    ));
                }
                q = q + 1;
            }
            out.push('}');
            proof {
                assert(final(out)@ =~= old(out)@ + jprint(v.deep()));
            }
        },
    }
}

/// The document as a string.
pub fn to_text(v: &JVal) -> (r: String)
    ensures
        r@ == jprint(v.deep()),
{
    let mut out: Vec<char> = Vec::new();
    write_jval(v, &mut out);
    crate::strutil::chars_to_string(&out)
}

// ---------------------------------------------------------------------------
// Parsing
// ---------------------------------------------------------------------------

pub open spec fn is_digit(c: char) -> bool {
    '0' <= c && c <= '9'
}

/// The numeric value of a digit character.
pub open spec fn digit_val(c: char) -> nat
    recommends
        is_digit(c),
{
    ((c as int) - ('0' as int)) as nat
}

/// The first non-digit position at or after `i`.
pub open spec fn digits_end(s: Seq<char>, i: int) -> int
    decreases s.len() - i,
{
    if 0 <= i < s.len() && is_digit(s[i]) {
        digits_end(s, i + 1)
    } else {
        i
    }
}

/// The value of the digit run `s[i..j)`.
pub open spec fn digits_val(s: Seq<char>, i: int, j: int) -> nat
    decreases j - i,
{
    if i >= j {
        0
    } else {
        digits_val(s, i, j - 1) * 10 + digit_val(s[j - 1])
    }
}

/// Insignificant whitespace between tokens.
pub open spec fn is_ws(c: char) -> bool {
    c == ' ' || c == '\t' || c == '\n' || c == '\r'
}

/// The first non-whitespace position at or after `i`.
pub open spec fn skip_ws(s: Seq<char>, i: int) -> int
    decreases s.len() - i,
{
    if 0 <= i < s.len() && is_ws(s[i]) {
        skip_ws(s, i + 1)
    } else {
        i
    }
}

/// Parses a number at `i`: an optional minus, up to nineteen integer digits,
/// and optionally a point with up to eighteen fraction digits.
pub open spec fn parse_number(s: Seq<char>, i: int) -> Option<(Dec, int)> {
    let neg = 0 <= i < s.len() && s[i] == '-';
    let i0 = if neg {
        i + 1
    } else {
        i
    };
    if !(0 <= i0 < s.len() && is_digit(s[i0])) {
        None
    } else {
        let j = digits_end(s, i0);
        if j - i0 > 19 {
            None
        } else {
            let ip = digits_val(s, i0, j);
            if j + 1 < s.len() && s[j] == '.' && is_digit(s[j + 1]) {
                let j2 = digits_end(s, j + 1);
                if j2 - (j + 1) > 18 {
                    None
                } else {
                    Some(
                        (
                            Dec {
                                neg,
                                int_part: ip as u64,
                                frac: digits_val(s, j + 1, j2) as u64,
                                frac_len: (j2 - j - 1) as u8,
                            },
                            j2,
                        ),
                    )
                }
            } else {
                Some((Dec { neg, int_part: ip as u64, frac: 0, frac_len: 0 }, j))
            }
        }
    }
}

/// Parses string contents after an opening quote, up to the closing quote.
/// Escapes are not accepted.
pub open spec fn parse_string_body(s: Seq<char>, i: int) -> Option<(Seq<char>, int)>
    decreases s.len() - i,
{
    if !(0 <= i < s.len()) {
        None
    } else if s[i] == '"' {
        Some((Seq::empty(), i + 1))
    } else if s[i] == '\\' {
        None
    } else {
        match parse_string_body(s, i + 1) {
            Some((t, j)) => Some((seq![s[i]] + t, j)),
            None => None,
        }
    }
}

/// Parses one value at `i`.
pub open spec fn parse_elem(s: Seq<char>, i: int) -> Option<(JSpec, int)>
    decreases s.len() - i, 2int,
{
    if !(0 <= i < s.len()) {
        None
    } else {
        let c = s[i];
        if c == 'n' {
            if i + 4 <= s.len() && s[i + 1] == 'u' && s[i + 2] == 'l' && s[i + 3] == 'l' {
                Some((JSpec::Null, i + 4))
            } else {
                None
            }
        } else if c == 't' {
            if i + 4 <= s.len() && s[i + 1] == 'r' && s[i + 2] == 'u' && s[i + 3] == 'e' {
                Some((JSpec::Bool(true), i + 4))
            } else {
                None
            }
        } else if c == 'f' {
            if i + 5 <= s.len() && s[i + 1] == 'a' && s[i + 2] == 'l' && s[i + 3] == 's' && s[i
                + 4] == 'e' {
                Some((JSpec::Bool(false), i + 5))
            } else {
                None
            }
        } else if c == '"' {
            match parse_string_body(s, i + 1) {
                Some((t, j)) => Some((JSpec::Str(t), j)),
                None => None,
            }
        } else if c == '[' {
            let a = skip_ws(s, i + 1);
            if a <= i || a >= s.len() {
                None
            } else if s[a] == ']' {
                Some((JSpec::Arr(Seq::empty()), a + 1))
            } else {
                match parse_items(s, a) {
                    Some((vs, j)) => Some((JSpec::Arr(vs), j)),
                    None => None,
                }
            }
        } else if c == '{' {
            let a = skip_ws(s, i + 1);
            if a <= i || a >= s.len() {
                None
            } else if s[a] == '}' {
                Some((JSpec::Obj(Seq::empty()), a + 1))
            } else {
                match parse_fields(s, a) {
                    Some((fs, j)) => Some((JSpec::Obj(fs), j)),
                    None => None,
                }
            }
        } else if c == '-' || is_digit(c) {
            match parse_number(s, i) {
                Some((d, j)) => Some((JSpec::Num(d), j)),
                None => None,
            }
        } else {
            None
        }
    }
}

/// Parses one or more comma-separated values up to a closing bracket.
pub open spec fn parse_items(s: Seq<char>, i: int) -> Option<(Seq<JSpec>, int)>
    decreases s.len() - i, 3int,
{
    match parse_elem(s, i) {
        None => None,
        Some((v, j)) => {
            let j2 = skip_ws(s, j);
            if j <= i || j2 < j || j2 >= s.len() {
                None
            } else if s[j2] == ',' {
                let a = skip_ws(s, j2 + 1);
                if a <= j2 || a >= s.len() {
                    None
                } else {
                    match parse_items(s, a) {
                        Some((vs, j3)) => Some((seq![v] + vs, j3)),
                        None => None,
                    }
                }
            } else if s[j2] == ']' {
                Some((seq![v], j2 + 1))
            } else {
                None
            }
        },
    }
}

/// Parses one or more `"key":value` members up to a closing brace.
pub open spec fn parse_fields(s: Seq<char>, i: int) -> Option<(Seq<(Seq<char>, JSpec)>, int)>
    decreases s.len() - i, 3int,
{
    if !(0 <= i < s.len() && s[i] == '"') {
        None
    } else {
        match parse_string_body(s, i + 1) {
            None => None,
            Some((k, j1)) => {
                let k2 = skip_ws(s, j1);
                if j1 <= i || k2 < j1 || k2 >= s.len() || s[k2] != ':' {
                    None
                } else {
                    let a = skip_ws(s, k2 + 1);
                    if a <= k2 || a >= s.len() {
                        None
                    } else {
                        match parse_elem(s, a) {
                            None => None,
                            Some((v, j2)) => {
                                let j3 = skip_ws(s, j2);
                                if j2 <= k2 || j3 < j2 || j3 >= s.len() {
                                    None
                                } else if s[j3] == ',' {
                                    let a2 = skip_ws(s, j3 + 1);
                                    if a2 <= j3 || a2 >= s.len() {
                                        None
                                    } else {
                                        match parse_fields(s, a2) {
                                            Some((fs, j4)) => Some((seq![(k, v)] + fs, j4)),
                                            None => None,
                                        }
                                    }
                                } else if s[j3] == '}' {
                                    Some((seq![(k, v)], j3 + 1))
                                } else {
                                    None
                                }
                            },
                        }
                    }
                }
            },
        }
    }
}

/// Parses a whole document: one value, with whitespace allowed around it.
pub open spec fn spec_parse_text(s: Seq<char>) -> Option<JSpec> {
    match parse_elem(s, skip_ws(s, 0)) {
        Some((v, j)) => if skip_ws(s, j) == s.len() {
            Some(v)
        } else {
            None
        },
        None => None,
    }
}

pub proof fn lemma_pow10_mono(a: nat, b: nat)
    requires
        a <= b,
    ensures
        pow10(a) <= pow10(b),
    decreases b,
{
    if a < b {
        lemma_pow10_mono(a, (b - 1) as nat);
    }
}

/// A digit run of `w` digits has value below `10^w`.
pub proof fn lemma_digits_val_bound(s: Seq<char>, i: int, j: int)
    requires
        i <= j,
        forall|w: int| i <= w < j ==> is_digit(s[w]),
    ensures
        digits_val(s, i, j) < pow10((j - i) as nat),
    decreases j - i,
{
    if i < j {
        lemma_digits_val_bound(s, i, j - 1);
        assert(digit_val(s[j - 1]) <= 9);
    }
}

/// Every position in a digit run is a digit, and the run ends on a non-digit.
pub proof fn lemma_digits_end_props(s: Seq<char>, i: int)
    requires
        0 <= i <= s.len(),
    ensures
        i <= digits_end(s, i) <= s.len(),
        forall|w: int| i <= w < digits_end(s, i) ==> is_digit(s[w]),
        digits_end(s, i) < s.len() ==> !is_digit(s[digits_end(s, i)]),
    decreases s.len() - i,
{
    if i < s.len() && is_digit(s[i]) {
        lemma_digits_end_props(s, i + 1);
    }
}

/// Scans a digit run: the value of up-to-nineteen digits, and where the run
/// ends.
fn p_digits(s: &str, i: usize) -> (r: (u64, usize))
    requires
        i <= s@.len(),
    ensures
        r.1 == digits_end(s@, i as int),
        i <= r.1 <= s@.len(),
        r.1 - i <= 19 ==> r.0 == digits_val(s@, i as int, r.1 as int) && (r.0 as nat) < pow10(
            (r.1 - i) as nat,
        ),
{
    let n: usize = s.unicode_len();
    let mut j: usize = i;
    let mut val: u64 = 0;
    proof {
        lemma_pow10_19();
    }
    while j < n
        invariant
            i <= j <= n,
            n == s@.len(),
            digits_end(s@, i as int) == digits_end(s@, j as int),
            forall|w: int| i <= w < j ==> is_digit(s@[w]),
            j - i <= 19 ==> val == digits_val(s@, i as int, j as int) && (val as nat) < pow10(
                (j - i) as nat,
            ),
        decreases n - j,
    {
        let c = s.get_char(j);
        if !('0' <= c && c <= '9') {
            break ;
        }
        if j - i < 19 {
            proof {
                lemma_pow10_mono(((j - i) as nat) + 1, 19);
            }
            val = val * 10 + ((c as u32) as u64 - ('0' as u32) as u64);
        }
        j = j + 1;
    }
    (val, j)
}

/// Parses a number, mirroring `parse_number`.
fn p_number(s: &str, i: usize) -> (r: Option<(Dec, usize)>)
    requires
        i <= s@.len(),
    ensures
        match r {
            Some(p) => parse_number(s@, i as int) == Some((p.0, p.1 as int)) && i < p.1
                <= s@.len() && dec_wf(p.0),
            None => parse_number(s@, i as int) is None,
        },
{
    let n: usize = s.unicode_len();
    let mut neg = false;
    let mut i0: usize = i;
    if i < n && s.get_char(i) == '-' {
        neg = true;
        i0 = i + 1;
    }
    if i0 >= n {
        return None;
    }
    let c0 = s.get_char(i0);
    if !('0' <= c0 && c0 <= '9') {
        return None;
    }
    let (ip, j) = p_digits(s, i0);
    if j - i0 > 19 {
        return None;
    }
    proof {
        lemma_digits_end_props(s@, i0 as int);
        lemma_pow10_mono((j - i0) as nat, 19);
        lemma_pow10_19();
    }
    if n - j > 1 && s.get_char(j) == '.' {
        let c1 = s.get_char(j + 1);
        if '0' <= c1 && c1 <= '9' {
            let (fr, j2) = p_digits(s, j + 1);
            if j2 - (j + 1) > 18 {
                return None;
            }
            proof {
                lemma_digits_end_props(s@, j + 1 as int);
                lemma_pow10_mono((j2 - (j + 1)) as nat, 18);
            }
            let d = Dec { neg, int_part: ip, frac: fr, frac_len: (j2 - (j + 1)) as u8 };
            return Some((d, j2));
        }
    }
    let d = Dec { neg, int_part: ip, frac: 0, frac_len: 0 };
    Some((d, j))
}

/// Parses quoted-string contents, mirroring `parse_string_body`.
fn p_string_body(s: &str, i: usize) -> (r: Option<(String, usize)>)
    requires
        i <= s@.len(),
    ensures
        match r {
            Some(p) => parse_string_body(s@, i as int) == Some((p.0@, p.1 as int)) && i < p.1
                <= s@.len(),
            None => parse_string_body(s@, i as int) is None,
        },
{
    let n: usize = s.unicode_len();
    let mut j: usize = i;
    let mut acc: Vec<char> = Vec::new();
    while j < n
        invariant
            i <= j <= n,
            n == s@.len(),
            parse_string_body(s@, i as int) == (match parse_string_body(s@, j as int) {
                Some(p) => Some((acc@ + p.0, p.1)),
                None => None::<(Seq<char>, int)>,
            }),
        decreases n - j,
    {
        let c = s.get_char(j);
        if c == '"' {
            let t = crate::strutil::chars_to_string(&acc);
            proof {
                assert(parse_string_body(s@, j as int) == Some(
                    (Seq::<char>::empty(), j + 1 as int),
                ));
                assert(acc@ + Seq::<char>::empty() =~= acc@);
            }
            return Some((t, j + 1));
        }
        if c == '\\' {
            return None;
        }
        let ghost pre = acc@;
        acc.push(c);
        proof {
            assert forall|t2: Seq<char>| true implies pre + (seq![s@[j as int]] + t2) =~= acc@
                + t2 by {}
        }
        j = j + 1;
    }
    None
}

/// Skips insignificant whitespace, mirroring `skip_ws`.
fn p_skip(s: &str, i: usize) -> (r: usize)
    requires
        i <= s@.len(),
    ensures
        r == skip_ws(s@, i as int),
        i <= r <= s@.len(),
{
    let n: usize = s.unicode_len();
    let mut j: usize = i;
    while j < n
        invariant
            i <= j <= n,
            n == s@.len(),
            skip_ws(s@, i as int) == skip_ws(s@, j as int),
        decreases n - j,
    {
        let c = s.get_char(j);
        if !(c == ' ' || c == '\t' || c == '\n' || c == '\r') {
            proof {
                assert(skip_ws(s@, j as int) == j);
            }
            return j;
        }
        j = j + 1;
    }
    j
}

/// Parses one value, mirroring `parse_elem`.
#[verifier::rlimit(100)]
fn p_elem(s: &str, i: usize) -> (r: Option<(JVal, usize)>)
    requires
        i <= s@.len(),
    ensures
        match r {
            Some(p) => parse_elem(s@, i as int) == Some((p.0.deep(), p.1 as int)) && i < p.1
                <= s@.len(),
            None => parse_elem(s@, i as int) is None,
        },
    decreases s@.len() - i, 2int,
{
    let n: usize = s.unicode_len();
    if i >= n {
        return None;
    }
    let c = s.get_char(i);
    if c == 'n' {
        if n - i >= 4 && s.get_char(i + 1) == 'u' && s.get_char(i + 2) == 'l' && s.get_char(
            i + 3,
        ) == 'l' {
            Some((JVal::Null, i + 4))
        } else {
            None
        }
    } else if c == 't' {
        if n - i >= 4 && s.get_char(i + 1) == 'r' && s.get_char(i + 2) == 'u' && s.get_char(
            i + 3,
        ) == 'e' {
            Some((JVal::Bool(true), i + 4))
        } else {
            None
        }
    } else if c == 'f' {
        if n - i >= 5 && s.get_char(i + 1) == 'a' && s.get_char(i + 2) == 'l' && s.get_char(
            i + 3,
        ) == 's' && s.get_char(i + 4) == 'e' {
            Some((JVal::Bool(false), i + 5))
        } else {
            None
        }
    } else if c == '"' {
        match p_string_body(s, i + 1) {
            Some((t, j)) => Some((JVal::Str(t), j)),
            None => None,
        }
    } else if c == '[' {
        let a = p_skip(s, i + 1);
        if a >= n {
            None
        } else if s.get_char(a) == ']' {
            let v = JVal::Arr(Vec::new());
            proof {
                assert(deep_list(Seq::<JVal>::empty()) =~= Seq::<JSpec>::empty());
            }
            Some((v, a + 1))
        } else {
            match p_items(s, a) {
                Some((vs, j)) => Some((JVal::Arr(vs), j)),
                None => None,
            }
        }
    } else if c == '{' {
        let a = p_skip(s, i + 1);
        if a >= n {
            None
        } else if s.get_char(a) == '}' {
            let v = JVal::Obj(Vec::new());
            proof {
                assert(deep_fields(Seq::<(String, JVal)>::empty()) =~= Seq::<
                    (Seq<char>, JSpec),
                >::empty());
            }
            Some((v, a + 1))
        } else {
            match p_fields(s, a) {
                Some((fs, j)) => Some((JVal::Obj(fs), j)),
                None => None,
            }
        }
    } else if c == '-' || ('0' <= c && c <= '9') {
        match p_number(s, i) {
            Some((d, j)) => Some((JVal::Num(d), j)),
            None => None,
        }
    } else {
        None
    }
}

/// Parses array items, mirroring `parse_items`.
fn p_items(s: &str, i: usize) -> (r: Option<(Vec<JVal>, usize)>)
    requires
        i <= s@.len(),
    ensures
        match r {
            Some(p) => parse_items(s@, i as int) == Some((deep_list(p.0@), p.1 as int)) && i
                < p.1 <= s@.len(),
            None => parse_items(s@, i as int) is None,
        },
    decreases s@.len() - i, 3int,
{
    let n: usize = s.unicode_len();
    match p_elem(s, i) {
        None => None,
        Some((v, j)) => {
            let j2 = p_skip(s, j);
            if j2 >= n {
                return None;
            }
            let cj = s.get_char(j2);
            if cj == ',' {
                let a = p_skip(s, j2 + 1);
                if a >= n {
                    return None;
                }
                match p_items(s, a) {
                    Some((vs, j3)) => {
                        let mut vs2 = vs;
                        let ghost rest_deep = deep_list(vs2@);
                        let ghost vdeep = v.deep();
                        vs2.insert(0, v);
                        proof {
                            assert(deep_list(vs2@) =~= seq![vdeep] + rest_deep);
                        }
                        Some((vs2, j3))
                    },
                    None => None,
                }
            } else if cj == ']' {
                let mut vs2: Vec<JVal> = Vec::new();
                let ghost vdeep = v.deep();
                vs2.push(v);
                proof {
                    assert(deep_list(vs2@) =~= seq![vdeep]);
                }
                Some((vs2, j2 + 1))
            } else {
                None
            }
        },
    }
}

/// Parses object members, mirroring `parse_fields`.
fn p_fields(s: &str, i: usize) -> (r: Option<(Vec<(String, JVal)>, usize)>)
    requires
        i <= s@.len(),
    ensures
        match r {
            Some(p) => parse_fields(s@, i as int) == Some((deep_fields(p.0@), p.1 as int)) && i
                < p.1 <= s@.len(),
            None => parse_fields(s@, i as int) is None,
        },
    decreases s@.len() - i, 3int,
{
    let n: usize = s.unicode_len();
    if i >= n || s.get_char(i) != '"' {
        return None;
    }
    match p_string_body(s, i + 1) {
        None => None,
        Some((k, j1)) => {
            let k2 = p_skip(s, j1);
            if k2 >= n || s.get_char(k2) != ':' {
                return None;
            }
            let a = p_skip(s, k2 + 1);
            if a >= n {
                return None;
            }
            match p_elem(s, a) {
                None => None,
                Some((v, j2)) => {
                    let j3 = p_skip(s, j2);
                    if j3 >= n {
                        return None;
                    }
                    let cj = s.get_char(j3);
                    if cj == ',' {
                        let a2 = p_skip(s, j3 + 1);
                        if a2 >= n {
                            return None;
                        }
                        match p_fields(s, a2) {
                            Some((fs, j4)) => {
                                let mut fs2 = fs;
                                let ghost rest_deep = deep_fields(fs2@);
                                let ghost kdeep = k@;
                                let ghost vdeep = v.deep();
                                fs2.insert(0, (k, v));
                                proof {
                                    assert(deep_fields(fs2@) =~= seq![(kdeep, vdeep)]
                                        + rest_deep);
                                }
                                Some((fs2, j4))
                            },
                            None => None,
                        }
                    } else if cj == '}' {
                        let mut fs2: Vec<(String, JVal)> = Vec::new();
                        let ghost kdeep = k@;
                        let ghost vdeep = v.deep();
                        fs2.push((k, v));
                        proof {
                            assert(deep_fields(fs2@) =~= seq![(kdeep, vdeep)]);
                        }
                        Some((fs2, j3 + 1))
                    } else {
                        None
                    }
                },
            }
        },
    }
}

/// Parses a whole document.
pub fn parse_text(s: &str) -> (r: Option<JVal>)
    ensures
        match r {
            Some(v) => spec_parse_text(s@) == Some(v.deep()),
            None => spec_parse_text(s@) is None,
        },
{
    let n: usize = s.unicode_len();
    let i0 = p_skip(s, 0);
    match p_elem(s, i0) {
        Some((v, j)) => {
            let k = p_skip(s, j);
            if k == n {
                Some(v)
            } else {
                None
            }
        },
        None => None,
    }
}

// ---------------------------------------------------------------------------
// The printer–parser inverse: printed canonical documents parse back to
// themselves.
// ---------------------------------------------------------------------------

/// `t` sits in `s` starting at `i`.
pub open spec fn embedded(s: Seq<char>, i: int, t: Seq<char>) -> bool {
    &&& 0 <= i
    &&& i + t.len() <= s.len()
    &&& s.subrange(i, i + t.len()) == t
}

/// An embedded concatenation embeds both halves.
proof fn lemma_embed_split(s: Seq<char>, i: int, a: Seq<char>, b: Seq<char>)
    requires
        embedded(s, i, a + b),
    ensures
        embedded(s, i, a),
        embedded(s, i + a.len(), b),
{
    assert(s.subrange(i, i + a.len()) =~= a) by {
        assert forall|q: int| 0 <= q < a.len() implies s.subrange(i, i + a.len())[q] == a[q] by {
            assert((a + b)[q] == s.subrange(i, i + (a + b).len())[q]);
        }
    }
    assert(s.subrange(i + a.len(), i + a.len() + b.len()) =~= b) by {
        assert forall|q: int|
            0 <= q < b.len() implies s.subrange(i + a.len(), i + a.len() + b.len())[q] == b[
            q] by {
            assert((a + b)[a.len() + q] == s.subrange(i, i + (a + b).len())[a.len() + q]);
        }
    }
}

/// The character of an embedded text at offset `q`.
proof fn lemma_embed_index(s: Seq<char>, i: int, t: Seq<char>, q: int)
    requires
        embedded(s, i, t),
        0 <= q < t.len(),
    ensures
        s[i + q] == t[q],
{
    assert(s.subrange(i, i + t.len())[q] == t[q]);
}

/// Digit characters have their digit values back.
proof fn lemma_digit_char_val(k: nat)
    requires
        k < 10,
    ensures
        is_digit(digit_char(k)),
        digit_val(digit_char(k)) == k,
{
}

/// Every character printed for a number is a digit.
proof fn lemma_print_u64_digits(n: nat)
    ensures
        print_u64(n).len() >= 1,
        forall|q: int| 0 <= q < print_u64(n).len() ==> is_digit(#[trigger] print_u64(n)[q]),
    decreases n,
{
    if n < 10 {
        lemma_digit_char_val(n);
    } else {
        lemma_print_u64_digits(n / 10);
        lemma_digit_char_val(n % 10);
        assert forall|q: int|
            0 <= q < print_u64(n).len() implies is_digit(#[trigger] print_u64(n)[q]) by {
            if q < print_u64(n / 10).len() {
                assert(print_u64(n)[q] == print_u64(n / 10)[q]);
            }
        }
    }
}

/// A number below `10^k` prints in at most `k` digits.
proof fn lemma_print_u64_len(n: nat, k: nat)
    requires
        k >= 1,
        n < pow10(k),
    ensures
        print_u64(n).len() <= k,
    decreases n,
{
    if n >= 10 {
        assert(n / 10 < pow10((k - 1) as nat)) by {
            assert(pow10(k) == 10 * pow10((k - 1) as nat));
        }
        lemma_print_u64_len(n / 10, (k - 1) as nat);
    }
}

/// Padded digits are digits, exactly `w` of them.
proof fn lemma_print_padded_digits(n: nat, w: nat)
    ensures
        print_padded(n, w).len() == w,
        forall|q: int| 0 <= q < w ==> is_digit(#[trigger] print_padded(n, w)[q]),
    decreases w,
{
    if w > 0 {
        lemma_print_padded_digits(n / 10, (w - 1) as nat);
        lemma_digit_char_val(n % 10);
        assert forall|q: int| 0 <= q < w implies is_digit(#[trigger] print_padded(n, w)[q]) by {
            if q < w - 1 {
                assert(print_padded(n, w)[q] == print_padded(n / 10, (w - 1) as nat)[q]);
            }
        }
    }
}

/// A digit run embedded before a non-digit ends exactly at the non-digit.
proof fn lemma_digits_end_exact(s: Seq<char>, i: int, j: int)
    requires
        0 <= i <= j <= s.len(),
        forall|w: int| i <= w < j ==> is_digit(s[w]),
        j == s.len() || !is_digit(s[j]),
    ensures
        digits_end(s, i) == j,
    decreases j - i,
{
    if i < j {
        lemma_digits_end_exact(s, i + 1, j);
    }
}

/// The value of an embedded digit run equals the printed number.
proof fn lemma_digits_val_of_print(s: Seq<char>, i: int, n: nat)
    requires
        embedded(s, i, print_u64(n)),
    ensures
        digits_val(s, i, i + print_u64(n).len()) == n,
    decreases n,
{
    lemma_print_u64_digits(n);
    let t = print_u64(n);
    if n < 10 {
        lemma_embed_index(s, i, t, 0);
        lemma_digit_char_val(n);
        assert(digits_val(s, i, i + 1) == digits_val(s, i, i) * 10 + digit_val(s[i]));
    } else {
        let tp = print_u64(n / 10);
        assert(t =~= tp + seq![digit_char(n % 10)]);
        lemma_embed_split(s, i, tp, seq![digit_char(n % 10)]);
        lemma_digits_val_of_print(s, i, n / 10);
        lemma_embed_index(s, i + tp.len(), seq![digit_char(n % 10)], 0);
        lemma_digit_char_val(n % 10);
        assert(digits_val(s, i, i + t.len()) == digits_val(s, i, i + t.len() - 1) * 10
            + digit_val(s[i + t.len() - 1]));
    }
}

/// The value of an embedded zero-padded run equals the padded number.
proof fn lemma_digits_val_of_padded(s: Seq<char>, i: int, n: nat, w: nat)
    requires
        embedded(s, i, print_padded(n, w)),
        n < pow10(w),
    ensures
        digits_val(s, i, i + w) == n,
    decreases w,
{
    lemma_print_padded_digits(n, w);
    let t = print_padded(n, w);
    if w > 0 {
        let tp = print_padded(n / 10, (w - 1) as nat);
        assert(t =~= tp + seq![digit_char(n % 10)]);
        lemma_embed_split(s, i, tp, seq![digit_char(n % 10)]);
        assert(n / 10 < pow10((w - 1) as nat)) by {
            assert(pow10(w) == 10 * pow10((w - 1) as nat));
        }
        lemma_digits_val_of_padded(s, i, n / 10, (w - 1) as nat);
        lemma_embed_index(s, i + tp.len(), seq![digit_char(n % 10)], 0);
        lemma_digit_char_val(n % 10);
        assert(digits_val(s, i, i + w) == digits_val(s, i, i + w - 1) * 10 + digit_val(
            s[i + w - 1],
        ));
    }
}

/// A printed canonical number parses back to itself, up to the character
/// after it — which must not read as more number.
proof fn lemma_parse_number_of_print(s: Seq<char>, i: int, d: Dec)
    requires
        dec_wf(d),
        embedded(s, i, print_dec(d)),
        i + print_dec(d).len() == s.len() || (!is_digit(s[i + print_dec(d).len()]) && s[i
            + print_dec(d).len()] != '.'),
    ensures
        parse_number(s, i) == Some((d, i + print_dec(d).len())),
{
    let e = i + print_dec(d).len();
    let sign: Seq<char> = if d.neg {
        seq!['-']
    } else {
        Seq::empty()
    };
    let ip = print_u64(d.int_part as nat);
    lemma_print_u64_digits(d.int_part as nat);
    lemma_print_u64_len(d.int_part as nat, 19);
    let i0 = i + sign.len();
    if d.frac_len == 0 {
        assert(print_dec(d) =~= sign + ip);
        lemma_embed_split(s, i, sign, ip);
    } else {
        assert(print_dec(d) =~= (sign + ip) + (seq!['.'] + print_padded(
            d.frac as nat,
            d.frac_len as nat,
        )));
        lemma_embed_split(
            s,
            i,
            sign + ip,
            seq!['.'] + print_padded(d.frac as nat, d.frac_len as nat),
        );
        lemma_embed_split(s, i, sign, ip);
        lemma_embed_split(
            s,
            i + sign.len() + ip.len(),
            seq!['.'],
            print_padded(d.frac as nat, d.frac_len as nat),
        );
    }
    if d.neg {
        lemma_embed_index(s, i, sign, 0);
        assert(s[i] == '-');
    } else {
        lemma_embed_index(s, i, ip, 0);
        assert(is_digit(s[i]));
        assert(s[i] != '-');
    }
    assert forall|w: int| i0 <= w < i0 + ip.len() implies is_digit(s[w]) by {
        lemma_embed_index(s, i0, ip, w - i0);
    }
    let j = i0 + ip.len();
    if d.frac_len == 0 {
        assert(j == e);
        lemma_digits_end_exact(s, i0, j);
        lemma_digits_val_of_print(s, i0, d.int_part as nat);
        assert(!(j + 1 < s.len() && s[j] == '.' && is_digit(s[j + 1]))) by {
            if j < s.len() {
                assert(s[j] != '.');
            }
        }
        assert(parse_number(s, i) == Some((d, e)));
    } else {
        lemma_embed_index(s, j, seq!['.'], 0);
        assert(s[j] == '.');
        lemma_digits_end_exact(s, i0, j);
        lemma_digits_val_of_print(s, i0, d.int_part as nat);
        let w = d.frac_len as nat;
        let fr = print_padded(d.frac as nat, w);
        lemma_print_padded_digits(d.frac as nat, w);
        assert forall|q: int| j + 1 <= q < j + 1 + w implies is_digit(s[q]) by {
            lemma_embed_index(s, j + 1, fr, q - (j + 1));
        }
        assert(e == j + 1 + w);
        lemma_digits_end_exact(s, j + 1, e);
        lemma_embed_index(s, j + 1, fr, 0);
        assert(is_digit(s[j + 1]));
        assert(j + 1 < s.len());
        lemma_digits_val_of_padded(s, j + 1, d.frac as nat, w);
        assert(parse_number(s, i) == Some((d, e)));
    }
}

/// Printed safe string contents parse back to themselves.
proof fn lemma_parse_string_of_print(s: Seq<char>, i: int, t: Seq<char>)
    requires
        json_safe(t),
        embedded(s, i, t + seq!['"']),
    ensures
        parse_string_body(s, i) == Some((t, i + t.len() + 1)),
    decreases t.len(),
{
    if t.len() == 0 {
        lemma_embed_index(s, i, t + seq!['"'], 0);
        assert(s[i] == '"');
    } else {
        assert(t + seq!['"'] =~= seq![t[0]] + (t.drop_first() + seq!['"']));
        lemma_embed_split(s, i, seq![t[0]], t.drop_first() + seq!['"']);
        lemma_embed_index(s, i, seq![t[0]], 0);
        assert(s[i] == t[0]);
        assert(t[0] != '"' && t[0] != '\\');
        assert(json_safe(t.drop_first())) by {
            assert forall|q: int|
                0 <= q < t.drop_first().len() implies t.drop_first()[q] != '"'
                && t.drop_first()[q] != '\\' && (t.drop_first()[q] as u32) >= 32 by {
                assert(t.drop_first()[q] == t[q + 1]);
            }
        }
        lemma_parse_string_of_print(s, i + 1, t.drop_first());
        assert(seq![s[i]] + t.drop_first() =~= t);
    }
}

/// A printed document starts with its kind's opening character — never a
/// closer, a separator, or whitespace.
proof fn lemma_jprint_first_char(v: JSpec)
    ensures
        jprint(v).len() >= 1,
        jprint(v)[0] != ']',
        jprint(v)[0] != '}',
        jprint(v)[0] != ',',
        jprint(v)[0] != ':',
        jprint(v)[0] != '"' || v is Str,
        !is_ws(jprint(v)[0]),
{
    match v {
        JSpec::Num(d) => {
            lemma_print_u64_digits(d.int_part as nat);
            if d.neg {
                assert(jprint(v)[0] == '-');
            } else {
                assert(jprint(v)[0] == print_u64(d.int_part as nat)[0]);
                assert(is_digit(jprint(v)[0]));
            }
        },
        _ => {},
    }
}

/// Skipping whitespace at a non-whitespace position, or at the end, stays
/// put.
proof fn lemma_skip_ws_fixed(s: Seq<char>, x: int)
    requires
        0 <= x,
        x >= s.len() || !is_ws(s[x]),
    ensures
        skip_ws(s, x) == x,
{
}

/// The first `k` printed array elements followed by more text split off the
/// first element's print.
proof fn lemma_items_upto_front(items: Seq<JSpec>, k: int)
    requires
        1 <= k <= items.len(),
    ensures
        jprint_items_upto(items, k) == jprint(items[0]) + (if k == 1 {
            Seq::<char>::empty()
        } else {
            seq![','] + jprint_items_upto(items.drop_first(), k - 1)
        }),
    decreases k,
{
    if k == 1 {
        assert(jprint_items_upto(items, 1) =~= jprint(items[0]) + Seq::<char>::empty());
    } else {
        lemma_items_upto_front(items, k - 1);
        if k == 2 {
            assert(jprint_items_upto(items.drop_first(), 1) == jprint(items.drop_first()[0]));
            assert(items.drop_first()[0] == items[1]);
            assert(jprint_items_upto(items, 2) =~= jprint(items[0]) + (seq![',']
                + jprint_items_upto(items.drop_first(), 1)));
        } else {
            assert(jprint_items_upto(items.drop_first(), k - 1) == jprint_items_upto(
                items.drop_first(),
                k - 2,
            ) + seq![','] + jprint(items.drop_first()[k - 2]));
            assert(items.drop_first()[k - 2] == items[k - 1]);
            assert(jprint_items_upto(items, k) =~= jprint(items[0]) + (seq![',']
                + jprint_items_upto(items.drop_first(), k - 1)));
        }
    }
}

/// The first `k` printed object members followed by more text split off the
/// first member's print.
proof fn lemma_fields_upto_front(fields: Seq<(Seq<char>, JSpec)>, k: int)
    requires
        1 <= k <= fields.len(),
    ensures
        jprint_fields_upto(fields, k) == seq!['"'] + fields[0].0 + seq!['"', ':'] + jprint(
            fields[0].1,
        ) + (if k == 1 {
            Seq::<char>::empty()
        } else {
            seq![','] + jprint_fields_upto(fields.drop_first(), k - 1)
        }),
    decreases k,
{
    if k == 1 {
        assert(jprint_fields_upto(fields, 1) =~= seq!['"'] + fields[0].0 + seq!['"', ':']
            + jprint(fields[0].1) + Seq::<char>::empty());
    } else {
        lemma_fields_upto_front(fields, k - 1);
        if k == 2 {
            assert(jprint_fields_upto(fields.drop_first(), 1) == seq!['"']
                + fields.drop_first()[0].0 + seq!['"', ':'] + jprint(fields.drop_first()[0].1));
            assert(fields.drop_first()[0] == fields[1]);
            assert(jprint_fields_upto(fields, 2) =~= seq!['"'] + fields[0].0 + seq!['"', ':']
                + jprint(fields[0].1) + (seq![','] + jprint_fields_upto(
                fields.drop_first(),
                1,
            )));
        } else {
            assert(jprint_fields_upto(fields.drop_first(), k - 1) == jprint_fields_upto(
                fields.drop_first(),
                k - 2,
            ) + seq![','] + seq!['"'] + fields.drop_first()[k - 2].0 + seq!['"', ':'] + jprint(
                fields.drop_first()[k - 2].1,
            ));
            assert(fields.drop_first()[k - 2] == fields[k - 1]);
            assert(jprint_fields_upto(fields, k) =~= seq!['"'] + fields[0].0 + seq!['"', ':']
                + jprint(fields[0].1) + (seq![','] + jprint_fields_upto(
                fields.drop_first(),
                k - 1,
            )));
        }
    }
}

/// A printed canonical document parses back to exactly itself, ending right
/// where the print ends.
#[verifier::rlimit(100)]
proof fn lemma_parse_elem_of_print(s: Seq<char>, i: int, v: JSpec)
    requires
        jspec_canon(v),
        embedded(s, i, jprint(v)),
        i + jprint(v).len() == s.len() || !(is_digit(s[i + jprint(v).len()]) || s[i + jprint(
            v,
        ).len()] == '.'),
    ensures
        parse_elem(s, i) == Some((v, i + jprint(v).len())),
    decreases v, 0int,
{
    let e = i + jprint(v).len();
    match v {
        JSpec::Null => {
            lemma_embed_index(s, i, jprint(v), 0);
            lemma_embed_index(s, i, jprint(v), 1);
            lemma_embed_index(s, i, jprint(v), 2);
            lemma_embed_index(s, i, jprint(v), 3);
        },
        JSpec::Bool(b) => {
            lemma_embed_index(s, i, jprint(v), 0);
            lemma_embed_index(s, i, jprint(v), 1);
            lemma_embed_index(s, i, jprint(v), 2);
            lemma_embed_index(s, i, jprint(v), 3);
            if !b {
                lemma_embed_index(s, i, jprint(v), 4);
            }
        },
        JSpec::Num(d) => {
            lemma_print_u64_digits(d.int_part as nat);
            if d.neg {
                lemma_embed_index(s, i, jprint(v), 0);
                assert(s[i] == '-');
            } else {
                lemma_embed_index(s, i, jprint(v), 0);
                assert(s[i] == print_u64(d.int_part as nat)[0]);
                assert(is_digit(s[i]));
            }
            lemma_parse_number_of_print(s, i, d);
        },
        JSpec::Str(t) => {
            assert(jprint(v) =~= seq!['"'] + (t + seq!['"']));
            lemma_embed_split(s, i, seq!['"'], t + seq!['"']);
            lemma_embed_index(s, i, seq!['"'], 0);
            lemma_parse_string_of_print(s, i + 1, t);
        },
        JSpec::Arr(items) => {
            lemma_embed_index(s, i, jprint(v), 0);
            assert(s[i] == '[');
            if items.len() == 0 {
                assert(jprint(v) =~= seq!['[', ']']);
                lemma_embed_index(s, i, jprint(v), 1);
                assert(s[i + 1] == ']');
                lemma_skip_ws_fixed(s, i + 1);
                assert(parse_elem(s, i) == Some((JSpec::Arr(Seq::empty()), i + 2)));
                assert(items =~= Seq::<JSpec>::empty());
                assert(v == JSpec::Arr(Seq::<JSpec>::empty()));
            } else {
                let u = jprint_items_upto(items, items.len() as int);
                assert(jprint(v) =~= seq!['['] + (u + seq![']']));
                lemma_embed_split(s, i, seq!['['], u + seq![']']);
                lemma_items_upto_front(items, items.len() as int);
                lemma_jprint_first_char(items[0]);
                assert(u[0] == jprint(items[0])[0]);
                lemma_embed_index(s, i + 1, u + seq![']'], 0);
                assert(s[i + 1] == u[0]);
                assert(s[i + 1] != ']');
                lemma_skip_ws_fixed(s, i + 1);
                lemma_parse_items_of_print(s, i + 1, items);
                assert(parse_items(s, i + 1) == Some((items, e)));
            }
        },
        JSpec::Obj(fields) => {
            lemma_embed_index(s, i, jprint(v), 0);
            assert(s[i] == '{');
            if fields.len() == 0 {
                assert(jprint(v) =~= seq!['{', '}']);
                lemma_embed_index(s, i, jprint(v), 1);
                assert(s[i + 1] == '}');
                lemma_skip_ws_fixed(s, i + 1);
                assert(parse_elem(s, i) == Some((JSpec::Obj(Seq::empty()), i + 2)));
                assert(fields =~= Seq::<(Seq<char>, JSpec)>::empty());
                assert(v == JSpec::Obj(Seq::<(Seq<char>, JSpec)>::empty()));
            } else {
                let u = jprint_fields_upto(fields, fields.len() as int);
                assert(jprint(v) =~= seq!['{'] + (u + seq!['}']));
                lemma_embed_split(s, i, seq!['{'], u + seq!['}']);
                lemma_fields_upto_front(fields, fields.len() as int);
                assert(u[0] == '"');
                lemma_embed_index(s, i + 1, u + seq!['}'], 0);
                assert(s[i + 1] == '"');
                assert(s[i + 1] != '}');
                lemma_skip_ws_fixed(s, i + 1);
                lemma_parse_fields_of_print(s, i + 1, fields);
                assert(parse_fields(s, i + 1) == Some((fields, e)));
            }
        },
    }
}

/// Printed canonical array elements followed by `]` parse back to exactly
/// those elements.
#[verifier::rlimit(100)]
proof fn lemma_parse_items_of_print(s: Seq<char>, i: int, items: Seq<JSpec>)
    requires
        items.len() >= 1,
        forall|q: int| 0 <= q < items.len() ==> jspec_canon(#[trigger] items[q]),
        embedded(s, i, jprint_items_upto(items, items.len() as int) + seq![']']),
    ensures
        parse_items(s, i) == Some(
            (items, i + jprint_items_upto(items, items.len() as int).len() + 1),
        ),
    decreases items, 1int,
{
    let n = items.len() as int;
    let u = jprint_items_upto(items, n);
    let e = i + u.len() + 1;
    lemma_items_upto_front(items, n);
    let jp0 = jprint(items[0]);
    lemma_jprint_first_char(items[0]);
    let tail: Seq<char> = if n == 1 {
        Seq::empty()
    } else {
        seq![','] + jprint_items_upto(items.drop_first(), n - 1)
    };
    assert(u + seq![']'] =~= jp0 + (tail + seq![']']));
    lemma_embed_split(s, i, jp0, tail + seq![']']);
    let j = i + jp0.len();
    lemma_embed_index(s, j, tail + seq![']'], 0);
    assert(jspec_canon(items[0]));
    if n == 1 {
        assert(s[j] == ']');
        lemma_skip_ws_fixed(s, j);
        lemma_parse_elem_of_print(s, i, items[0]);
        assert(parse_elem(s, i) == Some((items[0], j)));
        assert(seq![items[0]] =~= items);
        assert(parse_items(s, i) == Some((items, j + 1)));
    } else {
        assert(tail[0] == ',');
        assert(s[j] == ',');
        lemma_skip_ws_fixed(s, j);
        lemma_parse_elem_of_print(s, i, items[0]);
        assert(parse_elem(s, i) == Some((items[0], j)));
        let rest = items.drop_first();
        assert(tail + seq![']'] =~= seq![','] + (jprint_items_upto(rest, n - 1) + seq![']']));
        lemma_embed_split(s, j, seq![','], jprint_items_upto(rest, n - 1) + seq![']']);
        assert forall|q: int| 0 <= q < rest.len() implies jspec_canon(#[trigger] rest[q]) by {
            assert(rest[q] == items[q + 1]);
        }
        lemma_items_upto_front(rest, n - 1);
        lemma_jprint_first_char(rest[0]);
        lemma_embed_index(s, j + 1, jprint_items_upto(rest, n - 1) + seq![']'], 0);
        assert(s[j + 1] == jprint(rest[0])[0]);
        lemma_skip_ws_fixed(s, j + 1);
        lemma_parse_items_of_print(s, j + 1, rest);
        assert(parse_items(s, j + 1) == Some((rest, j + 1 + jprint_items_upto(rest, n - 1).len()
            + 1)));
        assert(seq![items[0]] + rest =~= items);
        assert(j + 1 + jprint_items_upto(rest, n - 1).len() + 1 == e);
        assert(parse_items(s, i) == Some((items, e)));
    }
}

/// Printed canonical object members followed by `}` parse back to exactly
/// those members.
#[verifier::rlimit(100)]
proof fn lemma_parse_fields_of_print(s: Seq<char>, i: int, fields: Seq<(Seq<char>, JSpec)>)
    requires
        fields.len() >= 1,
        forall|q: int|
            0 <= q < fields.len() ==> json_safe((#[trigger] fields[q]).0) && jspec_canon(
                fields[q].1,
            ),
        embedded(s, i, jprint_fields_upto(fields, fields.len() as int) + seq!['}']),
    ensures
        parse_fields(s, i) == Some(
            (fields, i + jprint_fields_upto(fields, fields.len() as int).len() + 1),
        ),
    decreases fields, 1int,
{
    let n = fields.len() as int;
    let u = jprint_fields_upto(fields, n);
    let e = i + u.len() + 1;
    lemma_fields_upto_front(fields, n);
    let key = fields[0].0;
    let jp0 = jprint(fields[0].1);
    lemma_jprint_first_char(fields[0].1);
    let tail: Seq<char> = if n == 1 {
        Seq::empty()
    } else {
        seq![','] + jprint_fields_upto(fields.drop_first(), n - 1)
    };
    assert(u + seq!['}'] =~= seq!['"'] + ((key + seq!['"']) + (seq![':'] + (jp0 + (tail
        + seq!['}'])))));
    lemma_embed_split(
        s,
        i,
        seq!['"'],
        (key + seq!['"']) + (seq![':'] + (jp0 + (tail + seq!['}']))),
    );
    lemma_embed_index(s, i, seq!['"'], 0);
    assert(s[i] == '"');
    lemma_embed_split(s, i + 1, key + seq!['"'], seq![':'] + (jp0 + (tail + seq!['}'])));
    assert(json_safe(key));
    lemma_parse_string_of_print(s, i + 1, key);
    let j1 = i + 1 + key.len() + 1;
    assert(parse_string_body(s, i + 1) == Some((key, j1)));
    lemma_embed_split(s, j1, seq![':'], jp0 + (tail + seq!['}']));
    lemma_embed_index(s, j1, seq![':'], 0);
    assert(s[j1] == ':');
    lemma_skip_ws_fixed(s, j1);
    lemma_embed_split(s, j1 + 1, jp0, tail + seq!['}']);
    lemma_embed_index(s, j1 + 1, jp0, 0);
    assert(s[j1 + 1] == jprint(fields[0].1)[0]);
    lemma_skip_ws_fixed(s, j1 + 1);
    let j2 = j1 + 1 + jp0.len();
    lemma_embed_index(s, j2, tail + seq!['}'], 0);
    assert(jspec_canon(fields[0].1));
    if n == 1 {
        assert(s[j2] == '}');
        lemma_skip_ws_fixed(s, j2);
        lemma_parse_elem_of_print(s, j1 + 1, fields[0].1);
        assert(parse_elem(s, j1 + 1) == Some((fields[0].1, j2)));
        assert(seq![(key, fields[0].1)] =~= fields);
        assert(parse_fields(s, i) == Some((fields, j2 + 1)));
        assert(j2 + 1 == e);
    } else {
        assert(tail[0] == ',');
        assert(s[j2] == ',');
        lemma_skip_ws_fixed(s, j2);
        lemma_parse_elem_of_print(s, j1 + 1, fields[0].1);
        assert(parse_elem(s, j1 + 1) == Some((fields[0].1, j2)));
        let rest = fields.drop_first();
        assert(tail + seq!['}'] =~= seq![','] + (jprint_fields_upto(rest, n - 1) + seq!['}']));
        lemma_embed_split(s, j2, seq![','], jprint_fields_upto(rest, n - 1) + seq!['}']);
        assert forall|q: int|
            0 <= q < rest.len() implies json_safe((#[trigger] rest[q]).0) && jspec_canon(
            rest[q].1) by {
            assert(rest[q] == fields[q + 1]);
        }
        lemma_fields_upto_front(rest, n - 1);
        lemma_embed_index(s, j2 + 1, jprint_fields_upto(rest, n - 1) + seq!['}'], 0);
        assert(s[j2 + 1] == '"');
        lemma_skip_ws_fixed(s, j2 + 1);
        lemma_parse_fields_of_print(s, j2 + 1, rest);
        assert(parse_fields(s, j2 + 1) == Some((rest, j2 + 1 + jprint_fields_upto(
            rest,
            n - 1,
        ).len() + 1)));
        assert(seq![(key, fields[0].1)] + rest =~= fields);
        assert(j2 + 1 + jprint_fields_upto(rest, n - 1).len() + 1 == e);
        assert(parse_fields(s, i) == Some((fields, e)));
    }
}

/// Serialize then deserialize is the identity: the printed text of a
/// canonical document parses back to exactly that document.
pub proof fn lemma_print_parse_identity(v: JSpec)
    requires
        jspec_canon(v),
    ensures
        spec_parse_text(jprint(v)) == Some(v),
{
    let s = jprint(v);
    assert(embedded(s, 0, jprint(v))) by {
        assert(s.subrange(0, s.len() as int) =~= s);
    }
    lemma_jprint_first_char(v);
    lemma_skip_ws_fixed(s, 0);
    lemma_parse_elem_of_print(s, 0, v);
    lemma_skip_ws_fixed(s, s.len() as int);
}

/// A string is safe to embed between quotes unescaped: it holds no quote, no
/// backslash, and no control character.
pub open spec fn json_safe(s: Seq<char>) -> bool {
    forall|i: int| 0 <= i < s.len() ==> s[i] != '"' && s[i] != '\\' && (s[i] as u32) >= 32
}

/// Runtime check matching `json_safe`.
pub fn is_json_safe(s: &str) -> (r: bool)
    ensures
        r == json_safe(s@),
{
    let n: usize = s.unicode_len();
    let mut i: usize = 0;
    while i < n
        invariant
            0 <= i <= n,
            n == s@.len(),
            forall|j: int| 0 <= j < i ==> s@[j] != '"' && s@[j] != '\\' && (s@[j] as u32) >= 32,
        decreases n - i,
    {
        let c = s.get_char(i);
        if c == '"' || c == '\\' || (c as u32) < 32 {
            return false;
        }
        i = i + 1;
    }
    true
}

} // verus!
