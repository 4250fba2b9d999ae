//! Text-level helpers: the escape policy for inline runs, decimal rendering
//! of ordered-list indices, and repeated-character paddings.

use vstd::prelude::*;

verus! {

/// Option bits for `escape_text`. The single recognized flag is bit 0,
/// `ESCAPE_LINEFEED`: replace a linefeed by `&#10;`.
#[derive(Debug, Clone, Copy)]
pub struct EscapeOptions(pub usize);

impl Default for EscapeOptions {
    /// No flag set: plain punctuation escaping only.
    fn default() -> (r: Self)
        ensures
            r.0 == 0,
    {
        EscapeOptions(0)
    }
}

impl EscapeOptions {
    /// The one recognized flag, as a value of the bitset.
    pub fn escape_linefeed() -> (r: EscapeOptions)
        ensures
            r.0 == 1,
    {
        EscapeOptions(1)
    }

    /// Whether every bit of `rhs` is set in `self`.
    pub open spec fn spec_has(self, rhs: EscapeOptions) -> bool {
        self.0 & rhs.0 == rhs.0
    }

    #[verifier::when_used_as_spec(spec_has)]
    pub fn has(self, rhs: EscapeOptions) -> (r: bool)
        ensures
            r == self.spec_has(rhs),
    {
        self.0 & rhs.0 == rhs.0
    }

    /// Whether the `ESCAPE_LINEFEED` flag (bit 0) is set.
    pub open spec fn spec_escapes_linefeed(self) -> bool {
        self.0 & 1 == 1
    }
}

/// True of the 32 ASCII punctuation characters, `!`..`/`, `:`..`@`,
/// `[`..=<code>`</code> and `{`..`~`, exactly as std's
/// `char::is_ascii_punctuation` defines them.
pub open spec fn spec_is_ascii_punctuation(c: char) -> bool {
    let u = c as u32;
    (0x21 <= u && u <= 0x2f) || (0x3a <= u && u <= 0x40) || (0x5b <= u && u <= 0x60) || (0x7b <= u
        && u <= 0x7e)
}

#[verifier::when_used_as_spec(spec_is_ascii_punctuation)]
pub fn is_ascii_punctuation(c: char) -> (r: bool)
    ensures
        r == spec_is_ascii_punctuation(c),
{
    let u = c as u32;
    (0x21 <= u && u <= 0x2f) || (0x3a <= u && u <= 0x40) || (0x5b <= u && u <= 0x60) || (0x7b <= u
        && u <= 0x7e)
}

/// What one character of an inline run becomes in the output: ASCII
/// punctuation is preceded by a backslash, a linefeed becomes `&#10;` when
/// `escape_linefeed` is set, and every other character passes through.
pub open spec fn esc_char(c: char, escape_linefeed: bool) -> Seq<char> {
    if spec_is_ascii_punctuation(c) {
        seq!['\\', c]
    } else if c == '\n' && escape_linefeed {
        seq!['&', '#', '1', '0', ';']
    } else {
        seq![c]
    }
}

/// The whole escaped text: each character replaced by its `esc_char` image,
/// in order.
pub open spec fn escape_seq(t: Seq<char>, escape_linefeed: bool) -> Seq<char>
    decreases t.len(),
{
    if t.len() == 0 {
        Seq::empty()
    } else {
        escape_seq(t.drop_last(), escape_linefeed) + esc_char(t.last(), escape_linefeed)
    }
}

/// Appends the escape of one character to `out`.
fn push_esc_char(out: &mut Vec<char>, c: char, escape_linefeed: bool)
    ensures
        final(out)@ == old(out)@ + esc_char(c, escape_linefeed),
{
    if is_ascii_punctuation(c) {
        out.push('\\');
        out.push(c);
        assert(out@ =~= old(out)@ + esc_char(c, escape_linefeed));
    } else if c == '\n' && escape_linefeed {
        out.push('&');
        out.push('#');
        out.push('1');
        out.push('0');
        out.push(';');
        assert(out@ =~= old(out)@ + esc_char(c, escape_linefeed));
    } else {
        out.push(c);
        assert(out@ =~= old(out)@ + esc_char(c, escape_linefeed));
    }
}

/// Appends the escape of the first `n` characters of `s` to `out`.
pub fn push_escaped(out: &mut Vec<char>, s: &str, n: usize, escape_linefeed: bool)
    requires
        n <= s@.len(),
    ensures
        final(out)@ == old(out)@ + escape_seq(s@.take(n as int), escape_linefeed),
{
    let mut j: usize = 0;
    while j < n
        invariant
            j <= n <= s@.len(),
            out@ == old(out)@ + escape_seq(s@.take(j as int), escape_linefeed),
        decreases n - j,
    {
        let c = s.get_char(j);
        push_esc_char(out, c, escape_linefeed);
        proof {
            let t = s@.take(j + 1 as int);
            assert(t.drop_last() =~= s@.take(j as int));
            assert(t.last() == s@[j as int]);
        }
        j = j + 1;
    }
    proof {
        if n == 0 {
            assert(s@.take(0) =~= Seq::<char>::empty());
            assert(out@ =~= old(out)@ + escape_seq(s@.take(0), escape_linefeed));
        }
    }
}

/// Appends the first `n` characters of `s` to `out`, unchanged.
pub fn push_verbatim(out: &mut Vec<char>, s: &str, n: usize)
    requires
        n <= s@.len(),
    ensures
        final(out)@ == old(out)@ + s@.take(n as int),
{
    let mut j: usize = 0;
    while j < n
        invariant
            j <= n <= s@.len(),
            out@ == old(out)@ + s@.take(j as int),
        decreases n - j,
    {
        let c = s.get_char(j);
        out.push(c);
        assert(out@ =~= old(out)@ + s@.take(j + 1 as int));
        j = j + 1;
    }
    assert(out@ =~= old(out)@ + s@.take(n as int));
}

/// The decimal digits of `n`, most significant first.
pub open spec fn decimal_seq(n: nat) -> Seq<char>
    decreases n,
{
    if n < 10 {
        seq![digit_char(n)]
    } else {
        decimal_seq(n / 10) + seq![digit_char(n % 10)]
    }
}

/// The character for one decimal digit.
pub open spec fn digit_char(d: nat) -> char {
    if d == 0 {
        '0'
    } else if d == 1 {
        '1'
    } else if d == 2 {
        '2'
    } else if d == 3 {
        '3'
    } else if d == 4 {
        '4'
    } else if d == 5 {
        '5'
    } else if d == 6 {
        '6'
    } else if d == 7 {
        '7'
    } else if d == 8 {
        '8'
    } else {
        '9'
    }
}

fn push_digit(out: &mut Vec<char>, d: u64)
    requires
        d < 10,
    ensures
        final(out)@ == old(out)@ + seq![digit_char(d as nat)],
{
    let c = if d == 0 {
        '0'
    } else if d == 1 {
        '1'
    } else if d == 2 {
        '2'
    } else if d == 3 {
        '3'
    } else if d == 4 {
        '4'
    } else if d == 5 {
        '5'
    } else if d == 6 {
        '6'
    } else if d == 7 {
        '7'
    } else if d == 8 {
        '8'
    } else {
        '9'
    };
    out.push(c);
    assert(out@ =~= old(out)@ + seq![digit_char(d as nat)]);
}

/// Appends the decimal rendering of `n` to `out`.
pub fn push_decimal(out: &mut Vec<char>, n: u64)
    ensures
        final(out)@ == old(out)@ + decimal_seq(n as nat),
    decreases n,
{
    if n < 10 {
        push_digit(out, n);
    } else {
        push_decimal(out, n / 10);
        push_digit(out, n % 10);
        assert(out@ =~= old(out)@ + decimal_seq(n as nat));
    }
}

/// How many characters the decimal rendering of `n` has.
pub fn decimal_len(n: u64) -> (l: usize)
    ensures
        l == decimal_seq(n as nat).len(),
        1 <= l <= 20,
    decreases n,
{
    if n < 10 {
        1
    } else {
        proof {
            lemma_decimal_len_bound(n as nat);
        }
        1 + decimal_len(n / 10)
    }
}

/// The decimal rendering of a `u64` never exceeds 20 digits.
proof fn lemma_decimal_len_bound(n: nat)
    requires
        n <= u64::MAX,
    ensures
        1 <= decimal_seq(n).len() <= 20,
{
    lemma_decimal_low(n);
    let l = decimal_seq(n).len();
    if l > 20 {
        lemma_pow10_mono(20, (l - 1) as nat);
        lemma_pow10_twenty();
        assert(n >= pow10(20));
    }
}

/// A number with `l` decimal digits is at least `10^(l-1)` (taking 0 as one
/// digit as well).
proof fn lemma_decimal_low(n: nat)
    ensures
        decimal_seq(n).len() >= 1,
        n >= pow10((decimal_seq(n).len() - 1) as nat) || n == 0,
    decreases n,
{
    if n < 10 {
        assert(pow10(0) == 1) by {
            reveal_with_fuel(pow10, 1);
        }
    } else {
        lemma_decimal_low(n / 10);
        let k = decimal_seq(n / 10).len();
        assert(decimal_seq(n).len() == k + 1);
        assert(n / 10 >= pow10((k - 1) as nat));
        assert(n >= 10 * (n / 10)) by (nonlinear_arith)
            requires
                n >= 10,
        ;
        assert(10 * (n / 10) >= 10 * pow10((k - 1) as nat)) by (nonlinear_arith)
            requires
                n / 10 >= pow10((k - 1) as nat),
        ;
        assert(pow10(k) == 10 * pow10((k - 1) as nat));
    }
}

/// `pow10` grows with its argument.
proof fn lemma_pow10_mono(a: nat, b: nat)
    requires
        a <= b,
    ensures
        pow10(a) <= pow10(b),
    decreases b,
{
    if a < b {
        lemma_pow10_mono(a, (b - 1) as nat);
        assert(pow10((b - 1) as nat) >= 1) by {
            lemma_pow10_pos((b - 1) as nat);
        }
    }
}

/// `pow10` is positive.
proof fn lemma_pow10_pos(k: nat)
    ensures
        pow10(k) >= 1,
    decreases k,
{
    if k > 0 {
        lemma_pow10_pos((k - 1) as nat);
    }
}

/// Twenty-one digits do not fit in a `u64`.
proof fn lemma_pow10_twenty()
    ensures
        pow10(20) > u64::MAX,
{
    assert(pow10(20) > u64::MAX) by {
        reveal_with_fuel(pow10, 21);
    }
}

/// Ten to the `k`.
pub open spec fn pow10(k: nat) -> nat
    decreases k,
{
    if k == 0 {
        1
    } else {
        10 * pow10((k - 1) as nat)
    }
}

/// A run of `n` spaces.
pub open spec fn space_seq(n: nat) -> Seq<char>
    decreases n,
{
    if n == 0 {
        Seq::empty()
    } else {
        space_seq((n - 1) as nat).push(' ')
    }
}

/// Appends `n` spaces to `out`.
pub fn push_spaces(out: &mut Vec<char>, n: usize)
    ensures
        final(out)@ == old(out)@ + space_seq(n as nat),
{
    let mut j: usize = 0;
    while j < n
        invariant
            j <= n,
            out@ == old(out)@ + space_seq(j as nat),
        decreases n - j,
    {
        out.push(' ');
        assert(out@ =~= old(out)@ + space_seq((j + 1) as nat));
        j = j + 1;
    }
    assert(out@ =~= old(out)@ + space_seq(n as nat));
}

/// A run of `n` number signs, the prefix of a heading of level `n`.
pub open spec fn hash_seq(n: nat) -> Seq<char>
    decreases n,
{
    if n == 0 {
        Seq::empty()
    } else {
        hash_seq((n - 1) as nat).push('#')
    }
}

/// Appends `n` number signs to `out`.
pub fn push_hashes(out: &mut Vec<char>, n: u32)
    ensures
        final(out)@ == old(out)@ + hash_seq(n as nat),
{
    let mut j: u32 = 0;
    while j < n
        invariant
            j <= n,
            out@ == old(out)@ + hash_seq(j as nat),
        decreases n - j,
    {
        out.push('#');
        assert(out@ =~= old(out)@ + hash_seq((j + 1) as nat));
        j = j + 1;
    }
    assert(out@ =~= old(out)@ + hash_seq(n as nat));
}

/// Relies on std's `FromIterator` impl for `String`: collecting an iterator
/// of `char`s yields the string made of exactly those characters in order.
#[verifier::external_body]
pub fn chars_to_string(v: &Vec<char>) -> (s: String)
    ensures
        s@ == v@,
{
    v.iter().collect()
}

/// The escape policy applied to a whole string: ASCII punctuation gets a
/// leading backslash; with the `ESCAPE_LINEFEED` flag a linefeed becomes
/// `&#10;`.
pub fn escape_text(input: &String, options: EscapeOptions) -> (r: String)
    ensures
        r@ == escape_seq(input@, options.spec_escapes_linefeed()),
{
    let mut out: Vec<char> = Vec::new();
    let lf = options.has(EscapeOptions::escape_linefeed());
    assert(lf == options.spec_escapes_linefeed());
    let n = input.as_str().unicode_len();
    push_escaped(&mut out, input.as_str(), n, lf);
    assert(input@.take(n as int) =~= input@);
    chars_to_string(&out)
}

} // verus!
