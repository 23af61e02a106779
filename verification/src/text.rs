//! Syntax of atom and variable names.
//!
//! An unquoted atom name starts with a lower-case letter and continues
//! with letters, digits, underscores or symbol characters; any text at
//! all (except a line break) may appear between single quotes.  A
//! variable name starts with an upper-case letter or an underscore.

use vstd::prelude::*;

verus! {

/// A lower-case ASCII letter.
pub open spec fn is_lower(c: char) -> bool {
    'a' <= c <= 'z'
}

/// An upper-case ASCII letter.
pub open spec fn is_upper(c: char) -> bool {
    'A' <= c <= 'Z'
}

/// An ASCII digit.
pub open spec fn is_digit(c: char) -> bool {
    '0' <= c <= '9'
}

/// A symbol character acceptable inside an unquoted atom name.
pub open spec fn is_symbol_char(c: char) -> bool {
    ||| c == '+'
    ||| c == '-'
    ||| c == '*'
    ||| c == '/'
    ||| c == '\\'
    ||| c == '^'
    ||| c == '<'
    ||| c == '>'
    ||| c == '='
    ||| c == '~'
    ||| c == ':'
    ||| c == '.'
    ||| c == '?'
    ||| c == '@'
    ||| c == '#'
    ||| c == '$'
    ||| c == '&'
    ||| c == '!'
    ||| c == ';'
    ||| c == '['
    ||| c == ']'
    ||| c == '{'
    ||| c == '}'
}

/// A character acceptable after the first one in an unquoted atom name.
pub open spec fn is_atom_body_char(c: char) -> bool {
    ||| is_lower(c)
    ||| is_upper(c)
    ||| is_digit(c)
    ||| c == '_'
    ||| is_symbol_char(c)
}

/// A character acceptable after the first one in a variable name.
pub open spec fn is_variable_body_char(c: char) -> bool {
    ||| is_lower(c)
    ||| is_upper(c)
    ||| is_digit(c)
    ||| c == '_'
}

/// The syntax of an atom name: unquoted (lower-case start, then body
/// characters) or quoted (anything but a line break between single
/// quotes).
pub open spec fn spec_valid_atom_name(s: Seq<char>) -> bool {
    ||| (s.len() > 0 && is_lower(s[0]) && forall|i: int|
        1 <= i < s.len() ==> is_atom_body_char(#[trigger] s[i]))
    ||| (s.len() >= 2 && s[0] == '\'' && s[s.len() - 1] == '\'' && forall|i: int|
        1 <= i < s.len() - 1 ==> #[trigger] s[i] != '\n')
}

/// The syntax of a variable name: an upper-case letter or underscore,
/// then letters, digits and underscores.
pub open spec fn spec_valid_variable_name(s: Seq<char>) -> bool {
    &&& s.len() > 0
    &&& (is_upper(s[0]) || s[0] == '_')
    &&& forall|i: int| 1 <= i < s.len() ==> is_variable_body_char(#[trigger] s[i])
}

/// Whether a character may continue an unquoted atom name.
fn atom_body_char(c: char) -> (r: bool)
    ensures
        r == is_atom_body_char(c),
{
    ('a' <= c && c <= 'z') || ('A' <= c && c <= 'Z') || ('0' <= c && c <= '9') || c == '_' || c
        == '+' || c == '-' || c == '*' || c == '/' || c == '\\' || c == '^' || c == '<' || c == '>'
        || c == '=' || c == '~' || c == ':' || c == '.' || c == '?' || c == '@' || c == '#' || c
        == '$' || c == '&' || c == '!' || c == ';' || c == '[' || c == ']' || c == '{' || c == '}'
}

/// True exactly when the text satisfies the atom-name syntax.
pub fn is_valid_atom_name(name: &str) -> (r: bool)
    ensures
        r == spec_valid_atom_name(name@),
{
    let n = name.unicode_len();
    if n == 0 {
        return false;
    }
    let first = name.get_char(0);
    if 'a' <= first && first <= 'z' {
        let mut i: usize = 1;
        while i < n
            invariant
                1 <= i <= n,
                n == name@.len(),
                is_lower(name@[0]),
                forall|j: int| 1 <= j < i ==> is_atom_body_char(#[trigger] name@[j]),
            decreases n - i,
        {
            if !atom_body_char(name.get_char(i)) {
                proof {
                    assert(name@[0] != '\'');
                }
                return false;
            }
            i = i + 1;
        }
        return true;
    }
    if n >= 2 && first == '\'' && name.get_char(n - 1) == '\'' {
        let mut i: usize = 1;
        while i < n - 1
            invariant
                1 <= i <= n - 1,
                n == name@.len(),
                n >= 2,
                forall|j: int| 1 <= j < i ==> #[trigger] name@[j] != '\n',
            decreases n - i,
        {
            if name.get_char(i) == '\n' {
                return false;
            }
            i = i + 1;
        }
        proof {
            assert(name@[0] == '\'' && name@[n - 1 as int] == '\'');
        }
        return true;
    }
    proof {
        if spec_valid_atom_name(name@) {
            assert(is_lower(name@[0]) || name@[0] == '\'');
        }
    }
    false
}

/// True exactly when the text satisfies the variable-name syntax.
pub fn is_valid_variable_name(name: &str) -> (r: bool)
    ensures
        r == spec_valid_variable_name(name@),
{
    let n = name.unicode_len();
    if n == 0 {
        return false;
    }
    let first = name.get_char(0);
    if !(('A' <= first && first <= 'Z') || first == '_') {
        return false;
    }
    let mut i: usize = 1;
    while i < n
        invariant
            1 <= i <= n,
            n == name@.len(),
            forall|j: int| 1 <= j < i ==> is_variable_body_char(#[trigger] name@[j]),
        decreases n - i,
    {
        let c = name.get_char(i);
        if !(('a' <= c && c <= 'z') || ('A' <= c && c <= 'Z') || ('0' <= c && c <= '9') || c
            == '_') {
            return false;
        }
        i = i + 1;
    }
    true
}

/// The decimal digit character for a value below ten.
pub open spec fn digit_char(d: nat) -> char {
    if d == 0 {
        '0'
    } else if d == 1 {
        '1'
    } else if d == 2 {
        '2'
    } else if d == 3 {
        '3'
    } else if d == 4 {
        '4'
    } else if d == 5 {
        '5'
    } else if d == 6 {
        '6'
    } else if d == 7 {
        '7'
    } else if d == 8 {
        '8'
    } else {
        '9'
    }
}

/// The decimal spelling of a number, most significant digit first.
pub open spec fn dec_text(n: nat) -> Seq<char>
    decreases n,
{
    if n < 10 {
        seq![digit_char(n)]
    } else {
        dec_text(n / 10).push(digit_char(n % 10))
    }
}

/// Every character of a decimal spelling is a digit, and there is at
/// least one.
pub proof fn lemma_dec_text_digits(n: nat)
    ensures
        dec_text(n).len() >= 1,
        forall|i: int| 0 <= i < dec_text(n).len() ==> is_digit(#[trigger] dec_text(n)[i]),
    decreases n,
{
    if n >= 10 {
        lemma_dec_text_digits(n / 10);
        assert forall|i: int| 0 <= i < dec_text(n).len() implies is_digit(
            #[trigger] dec_text(n)[i],
        ) by {
            if i < dec_text(n).len() - 1 {
                assert(dec_text(n)[i] == dec_text(n / 10)[i]);
            }
        }
    }
}

/// The decimal spelling of a number, as a string.
pub fn dec_string(n: u64) -> (r: String)
    ensures
        r@ == dec_text(n as nat),
{
    let mut rev: Vec<u8> = Vec::new();
    let mut m: u64 = n;
    let d0: u8 = (m % 10) as u8 + 48;
    rev.push(d0);
    m = m / 10;
    proof {
        lemma_digit_byte(n as nat % 10);
        if n < 10 {
            assert(Seq::new(rev@.len(), |i: int| rev@[rev@.len() - 1 - i]) =~= seq![
                digit_char(n as nat) as u8,
            ]);
            assert(bytes_of(dec_text(n as nat)) =~= seq![digit_char(n as nat) as u8]);
        } else {
            assert(bytes_of(dec_text(n as nat)) =~= bytes_of(dec_text(m as nat)).push(
                digit_char(n as nat % 10) as u8,
            ));
            assert(bytes_of(dec_text(n as nat)) =~= bytes_of(dec_text(m as nat)) + Seq::new(
                rev@.len(),
                |i: int| rev@[rev@.len() - 1 - i],
            ));
        }
    }
    while m > 0
        invariant
            rev@.len() >= 1,
            forall|i: int| 0 <= i < rev@.len() ==> 48 <= #[trigger] rev@[i] <= 57,
            m > 0 ==> bytes_of(dec_text(n as nat)) == bytes_of(dec_text(m as nat)) + Seq::new(
                rev@.len(),
                |i: int| rev@[rev@.len() - 1 - i],
            ),
            m == 0 ==> bytes_of(dec_text(n as nat)) == Seq::new(
                rev@.len(),
                |i: int| rev@[rev@.len() - 1 - i],
            ),
        decreases m,
    {
        let d: u8 = (m % 10) as u8 + 48;
        rev.push(d);
        let ghost m0 = m as nat;
        m = m / 10;
        proof {
            lemma_digit_byte(m0 % 10);
            if m > 0 {
                assert(bytes_of(dec_text(m0)) =~= bytes_of(dec_text(m as nat)).push(
                    digit_char(m0 % 10) as u8,
                ));
                assert(bytes_of(dec_text(n as nat)) =~= bytes_of(dec_text(m as nat)) + Seq::new(
                    rev@.len(),
                    |i: int| rev@[rev@.len() - 1 - i],
                ));
            } else {
                assert(bytes_of(dec_text(m0)) =~= seq![digit_char(m0) as u8]);
                assert(bytes_of(dec_text(n as nat)) =~= Seq::new(
                    rev@.len(),
                    |i: int| rev@[rev@.len() - 1 - i],
                ));
            }
        }
    }
    let k = rev.len();
    let mut out: Vec<u8> = Vec::new();
    let mut i: usize = k;
    while i > 0
        invariant
            i <= k,
            k == rev@.len(),
            forall|j: int| 0 <= j < rev@.len() ==> 48 <= #[trigger] rev@[j] <= 57,
            out@ =~= Seq::new((k - i) as nat, |j: int| rev@[k - 1 - j]),
        decreases i,
    {
        i = i - 1;
        out.push(rev[i]);
        proof {
            assert(out@ =~= Seq::new((k - i) as nat, |j: int| rev@[k - 1 - j]));
        }
    }
    proof {
        assert(out@ =~= bytes_of(dec_text(n as nat)));
        lemma_dec_text_digits(n as nat);
        assert forall|j: int| 0 <= j < out@.len() implies 1 <= #[trigger] out@[j] <= 127 by {
            assert(is_digit(dec_text(n as nat)[j]));
        }
    }
    let r = crate::engine::string_from_ascii(out);
    proof {
        assert forall|j: int| 0 <= j < r@.len() implies r@[j] == dec_text(n as nat)[j] by {
            assert(r@[j] as u8 == out@[j]);
            assert(out@[j] == dec_text(n as nat)[j] as u8);
            assert(is_digit(dec_text(n as nat)[j]));
            assert(r@[j] as int <= 127);
            assert(r@[j] as int == dec_text(n as nat)[j] as int);
        }
        assert(r@ =~= dec_text(n as nat));
    }
    r
}

/// The byte image of an ASCII character sequence; used to relate the
/// digit characters of a spelling to the digit bytes that build it.
pub open spec fn bytes_of(s: Seq<char>) -> Seq<u8> {
    Seq::new(s.len(), |i: int| s[i] as u8)
}

/// The digit character of a value below ten has the digit's ASCII byte.
pub proof fn lemma_digit_byte(d: nat)
    requires
        d < 10,
    ensures
        digit_char(d) as int == 48 + d,
        is_digit(digit_char(d)),
{
}

} // verus!
