//! Small pure helpers: a lexicographic order on strings, decimal
//! rendering, byte counts as human-readable text, and drive-identifier
//! normalization.

use vstd::prelude::*;

use vstd::arithmetic::div_mod::{lemma_div_is_ordered, lemma_div_is_ordered_by_denominator};

verus! {

/// Lexicographic order on character sequences, by code point; a prefix
/// comes before every extension of it.
pub open spec fn lex_le(a: Seq<char>, b: Seq<char>) -> bool
    decreases a.len(),
{
    if a.len() == 0 {
        true
    } else if b.len() == 0 {
        false
    } else if a[0] == b[0] {
        lex_le(a.drop_first(), b.drop_first())
    } else {
        (a[0] as int) < (b[0] as int)
    }
}

/// Any two strings are ordered one way or the other.
pub proof fn lemma_lex_le_total(a: Seq<char>, b: Seq<char>)
    ensures
        lex_le(a, b) || lex_le(b, a),
    decreases a.len(),
{
    if a.len() != 0 && b.len() != 0 {
        if a[0] == b[0] {
            lemma_lex_le_total(a.drop_first(), b.drop_first());
        } else {
            assert((a[0] as int) != (b[0] as int));
        }
    }
}

/// Strings ordered both ways are equal.
pub proof fn lemma_lex_le_antisym(a: Seq<char>, b: Seq<char>)
    requires
        lex_le(a, b),
        lex_le(b, a),
    ensures
        a == b,
    decreases a.len(),
{
    if a.len() == 0 {
        assert(b.len() == 0);
        assert(a =~= b);
    } else {
        assert(b.len() != 0);
        assert(a[0] == b[0]) by {
            if a[0] != b[0] {
                assert((a[0] as int) < (b[0] as int));
                assert((b[0] as int) < (a[0] as int));
            }
        }
        lemma_lex_le_antisym(a.drop_first(), b.drop_first());
        assert(a =~= seq![a[0]] + a.drop_first());
        assert(b =~= seq![b[0]] + b.drop_first());
    }
}

/// The order is transitive.
pub proof fn lemma_lex_le_trans(a: Seq<char>, b: Seq<char>, c: Seq<char>)
    requires
        lex_le(a, b),
        lex_le(b, c),
    ensures
        lex_le(a, c),
    decreases a.len(),
{
    if a.len() != 0 && b.len() != 0 && c.len() != 0 {
        if a[0] == b[0] && b[0] == c[0] {
            lemma_lex_le_trans(a.drop_first(), b.drop_first(), c.drop_first());
        }
    }
}

/// Equal prefixes do not affect the order of what follows.
pub proof fn lemma_lex_le_common_prefix(a: Seq<char>, b: Seq<char>, i: int)
    requires
        0 <= i <= a.len(),
        i <= b.len(),
        forall|k: int| 0 <= k < i ==> a[k] == b[k],
    ensures
        lex_le(a, b) == lex_le(a.skip(i), b.skip(i)),
    decreases i,
{
    if i > 0 {
        assert(a.len() > 0 && b.len() > 0 && a[0] == b[0]);
        assert(a.drop_first().skip(i - 1) =~= a.skip(i));
        assert(b.drop_first().skip(i - 1) =~= b.skip(i));
        assert(forall|k: int| 0 <= k < i - 1 ==> a.drop_first()[k] == b.drop_first()[k]);
        lemma_lex_le_common_prefix(a.drop_first(), b.drop_first(), i - 1);
    } else {
        assert(a.skip(0) =~= a);
        assert(b.skip(0) =~= b);
    }
}

/// Compares two strings in the lexicographic order.
pub fn str_lex_le(a: &str, b: &str) -> (r: bool)
    ensures
        r == lex_le(a@, b@),
{
    let na = a.unicode_len();
    let nb = b.unicode_len();
    let mut i: usize = 0;
    while i < na && i < nb
        invariant
            i <= na,
            i <= nb,
            na == a@.len(),
            nb == b@.len(),
            forall|k: int| 0 <= k < i ==> a@[k] == b@[k],
        decreases na - i,
    {
        let ca = a.get_char(i);
        let cb = b.get_char(i);
        if ca != cb {
            proof {
                lemma_lex_le_common_prefix(a@, b@, i as int);
                assert(a@.skip(i as int)[0] == a@[i as int]);
                assert(b@.skip(i as int)[0] == b@[i as int]);
            }
            return ca < cb;
        }
        i += 1;
    }
    proof {
        lemma_lex_le_common_prefix(a@, b@, i as int);
        if i == na {
            assert(a@.skip(na as int) =~= Seq::<char>::empty());
        } else {
            assert(b@.skip(nb as int) =~= Seq::<char>::empty());
            assert(a@.skip(i as int).len() > 0);
        }
    }
    na <= nb
}

/// The decimal digit for a value below ten.
pub open spec fn digit_char(d: int) -> char {
    if d == 0 {
        '0'
    } else if d == 1 {
        '1'
    } else if d == 2 {
        '2'
    } else if d == 3 {
        '3'
    } else if d == 4 {
        '4'
    } else if d == 5 {
        '5'
    } else if d == 6 {
        '6'
    } else if d == 7 {
        '7'
    } else if d == 8 {
        '8'
    } else {
        '9'
    }
}

/// The decimal digits of a non-negative number, most significant first.
pub open spec fn decimal_digits(n: int) -> Seq<char>
    recommends
        n >= 0,
    decreases n,
{
    if n < 10 {
        seq![digit_char(n)]
    } else {
        decimal_digits(n / 10).push(digit_char(n % 10))
    }
}

/// Appends one decimal digit.
fn append_digit(out: &mut String, d: u64)
    requires
        d < 10,
    ensures
        final(out)@ == old(out)@ + seq![digit_char(d as int)],
{
    if d == 0 {
        proof {
            reveal_strlit("0");
        }
        out.append("0");
        proof {
            assert("0"@ =~= seq![digit_char(0)]);
        }
    } else if d == 1 {
        proof {
            reveal_strlit("1");
        }
        out.append("1");
        proof {
            assert("1"@ =~= seq![digit_char(1)]);
        }
    } else if d == 2 {
        proof {
            reveal_strlit("2");
        }
        out.append("2");
        proof {
            assert("2"@ =~= seq![digit_char(2)]);
        }
    } else if d == 3 {
        proof {
            reveal_strlit("3");
        }
        out.append("3");
        proof {
            assert("3"@ =~= seq![digit_char(3)]);
        }
    } else if d == 4 {
        proof {
            reveal_strlit("4");
        }
        out.append("4");
        proof {
            assert("4"@ =~= seq![digit_char(4)]);
        }
    } else if d == 5 {
        proof {
            reveal_strlit("5");
        }
        out.append("5");
        proof {
            assert("5"@ =~= seq![digit_char(5)]);
        }
    } else if d == 6 {
        proof {
            reveal_strlit("6");
        }
        out.append("6");
        proof {
            assert("6"@ =~= seq![digit_char(6)]);
        }
    } else if d == 7 {
        proof {
            reveal_strlit("7");
        }
        out.append("7");
        proof {
            assert("7"@ =~= seq![digit_char(7)]);
        }
    } else if d == 8 {
        proof {
            reveal_strlit("8");
        }
        out.append("8");
        proof {
            assert("8"@ =~= seq![digit_char(8)]);
        }
    } else {
        proof {
            reveal_strlit("9");
        }
        out.append("9");
        proof {
            assert("9"@ =~= seq![digit_char(9)]);
        }
    }
}

/// Appends the decimal form of `n`.
fn push_decimal(out: &mut String, n: u64)
    ensures
        final(out)@ == old(out)@ + decimal_digits(n as int),
    decreases n,
{
    if n < 10 {
        append_digit(out, n);
    } else {
        push_decimal(out, n / 10);
        append_digit(out, n % 10);
    }
}

pub const KB: u64 = 1024;

pub const MB: u64 = 1024 * 1024;

pub const GB: u64 = 1024 * 1024 * 1024;

pub const TB: u64 = 1024 * 1024 * 1024 * 1024;

/// A byte count scaled by `unit`, in hundredths, rounded half up.
pub open spec fn scaled_hundredths(bytes: int, unit: int) -> int {
    (100 * bytes + unit / 2) / unit
}

/// `<whole>.<two digits><suffix>` for a byte count scaled by `unit`.
pub open spec fn sized_text(bytes: int, unit: int, suffix: Seq<char>) -> Seq<char> {
    let h = scaled_hundredths(bytes, unit);
    decimal_digits(h / 100) + seq!['.'] + seq![digit_char((h % 100) / 10), digit_char((h % 100) % 10)]
        + suffix
}

pub open spec fn kib_suffix() -> Seq<char> {
    seq![' ', 'k', 'i', 'B']
}

pub open spec fn mib_suffix() -> Seq<char> {
    seq![' ', 'M', 'i', 'B']
}

pub open spec fn gib_suffix() -> Seq<char> {
    seq![' ', 'G', 'i', 'B']
}

/// A byte count as text, in the unit its size calls for.
pub open spec fn bytes_text(bytes: int) -> Seq<char> {
    if bytes < MB {
        sized_text(bytes, KB as int, kib_suffix())
    } else if bytes < GB {
        sized_text(bytes, MB as int, mib_suffix())
    } else if bytes < TB {
        sized_text(bytes, GB as int, gib_suffix())
    } else {
        sized_text(bytes, TB as int, kib_suffix())
    }
}

/// Renders one scaled size: whole part, point, two fraction digits and
/// the unit suffix.
fn render_sized(bytes: u64, unit: u64, suffix: &str) -> (r: String)
    requires
        1024 <= unit,
    ensures
        r@ == sized_text(bytes as int, unit as int, suffix@),
{
    let b: u128 = bytes as u128;
    let u: u128 = unit as u128;
    let h128: u128 = (100 * b + u / 2) / u;
    proof {
        assert(h128 == scaled_hundredths(bytes as int, unit as int));
        lemma_div_is_ordered_by_denominator(100 * b as int + u as int / 2, 1024, u as int);
        lemma_div_is_ordered(
            100 * b as int + u as int / 2,
            100 * (u64::MAX as int) + (u64::MAX as int),
            1024,
        );
        assert((100 * (u64::MAX as int) + (u64::MAX as int)) / 1024 < u64::MAX);
    }
    let whole: u64 = (h128 / 100) as u64;
    let frac: u64 = (h128 % 100) as u64;
    let mut out = String::new();
    push_decimal(&mut out, whole);
    proof {
        reveal_strlit(".");
    }
    out.append(".");
    proof {
        assert("."@ =~= seq!['.']);
    }
    append_digit(&mut out, frac / 10);
    append_digit(&mut out, frac % 10);
    out.append(suffix);
    proof {
        let h = scaled_hundredths(bytes as int, unit as int);
        assert(whole == h / 100);
        assert(frac == h % 100);
        assert(out@ =~= sized_text(bytes as int, unit as int, suffix@));
    }
    out
}

/// Shows a byte count in an appropriate unit, with two fraction digits.
pub fn bytes_to_string(bytes: u64) -> (r: String)
    ensures
        r@ == bytes_text(bytes as int),
{
    if bytes < MB {
        proof {
            reveal_strlit(" kiB");
        }
        let r = render_sized(bytes, KB, " kiB");
        proof {
            assert(" kiB"@ =~= kib_suffix());
        }
        r
    } else if bytes < GB {
        proof {
            reveal_strlit(" MiB");
        }
        let r = render_sized(bytes, MB, " MiB");
        proof {
            assert(" MiB"@ =~= mib_suffix());
        }
        r
    } else if bytes < TB {
        proof {
            reveal_strlit(" GiB");
        }
        let r = render_sized(bytes, GB, " GiB");
        proof {
            assert(" GiB"@ =~= gib_suffix());
        }
        r
    } else {
        proof {
            reveal_strlit(" kiB");
        }
        let r = render_sized(bytes, TB, " kiB");
        proof {
            assert(" kiB"@ =~= kib_suffix());
        }
        r
    }
}

/// A drive identifier brought to the form `X:\`: one already in that
/// form is unchanged, a trailing colon gains a backslash, anything else
/// gains both.
pub open spec fn drive_text(s: Seq<char>) -> Seq<char> {
    if s.len() >= 2 && s[s.len() - 2] == ':' && s[s.len() - 1] == '\\' {
        s
    } else if s.len() >= 1 && s[s.len() - 1] == ':' {
        s.push('\\')
    } else {
        s + seq![':', '\\']
    }
}

/// Normalizes a drive identifier (`X`, `X:` or `X:\`) to `X:\`. Meant
/// for paths that name drives; the caller applies it only where drive
/// letters are in use.
pub fn normalize_drive(s: String) -> (r: String)
    ensures
        r@ == drive_text(s@),
{
    let ghost sv = s@;
    let n = s.as_str().unicode_len();
    let ends_colon_slash = if n >= 2 {
        s.as_str().get_char(n - 2) == ':' && s.as_str().get_char(n - 1) == '\\'
    } else {
        false
    };
    if ends_colon_slash {
        return s;
    }
    let ends_colon = if n >= 1 {
        s.as_str().get_char(n - 1) == ':'
    } else {
        false
    };
    let mut out = s;
    if ends_colon {
        proof {
            reveal_strlit("\\");
        }
        out.append("\\");
        proof {
            assert("\\"@ =~= seq!['\\']);
            assert(out@ =~= sv.push('\\'));
        }
    } else {
        proof {
            reveal_strlit(":\\");
        }
        out.append(":\\");
        proof {
            assert(":\\"@ =~= seq![':', '\\']);
        }
    }
    out
}

} // verus!
