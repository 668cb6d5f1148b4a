//! Percent-encoding of URL text, password rotation and salting.
use vstd::prelude::*;
use sha2::Digest;
use crate::text::{chars_of, string_of, all_ascii};

verus! {

/// The percent code of each character that URL text escapes.
pub open spec fn pct_code(c: char) -> Option<Seq<char>> {
    let h = |a: char, b: char| Some(seq!['%', a, b]);
    if c == ' ' { h('2', '0') } else if c == '!' { h('2', '1') } else if c == '"' { h('2', '2') }
    else if c == '#' { h('2', '3') } else if c == '$' { h('2', '4') } else if c == '%' { h('2', '5') }
    else if c == '&' { h('2', '6') } else if c == '\'' { h('2', '7') } else if c == '(' { h('2', '8') }
    else if c == ')' { h('2', '9') } else if c == '*' { h('2', 'A') } else if c == '+' { h('2', 'B') }
    else if c == ',' { h('2', 'C') } else if c == '-' { h('2', 'D') } else if c == '.' { h('2', 'E') }
    else if c == '/' { h('2', 'F') } else if c == ':' { h('3', 'A') } else if c == ';' { h('3', 'B') }
    else if c == '<' { h('3', 'C') } else if c == '=' { h('3', 'D') } else if c == '>' { h('3', 'E') }
    else if c == '?' { h('3', 'F') } else if c == '@' { h('4', '0') } else if c == '[' { h('5', 'B') }
    else if c == ']' { h('5', 'D') } else if c == '_' { h('5', 'F') } else { None }
}

fn code_of(c: char) -> (r: Option<(char, char)>)
    ensures
        r matches Some(p) ==> pct_code(c) == Some(seq!['%', p.0, p.1]),
        r is None ==> pct_code(c) is None,
{
    let p = match c {
        ' ' => ('2', '0'), '!' => ('2', '1'), '"' => ('2', '2'), '#' => ('2', '3'),
        '$' => ('2', '4'), '%' => ('2', '5'), '&' => ('2', '6'), '\'' => ('2', '7'),
        '(' => ('2', '8'), ')' => ('2', '9'), '*' => ('2', 'A'), '+' => ('2', 'B'),
        ',' => ('2', 'C'), '-' => ('2', 'D'), '.' => ('2', 'E'), '/' => ('2', 'F'),
        ':' => ('3', 'A'), ';' => ('3', 'B'), '<' => ('3', 'C'), '=' => ('3', 'D'),
        '>' => ('3', 'E'), '?' => ('3', 'F'), '@' => ('4', '0'), '[' => ('5', 'B'),
        ']' => ('5', 'D'), '_' => ('5', 'F'),
        _ => return None,
    };
    Some(p)
}

/// The character that a percent code stands for.
pub open spec fn pct_char(code: Seq<char>) -> Option<char> {
    if code.len() == 3 && exists|c: char| pct_code(c) == Some(code) {
        Some(choose|c: char| pct_code(c) == Some(code))
    } else {
        None
    }
}

/// URL text with each escaped character replaced by its percent code.
pub open spec fn url_encoded(s: Seq<char>) -> Seq<char>
    decreases s.len(),
{
    if s.len() == 0 {
        s
    } else {
        let piece = match pct_code(s.last()) {
            Some(p) => p,
            None => seq![s.last()],
        };
        url_encoded(s.drop_last()) + piece
    }
}

/// Replaces each escaped character by its percent code.
pub fn encode(url: String) -> (r: String)
    ensures
        r@ == url_encoded(url@),
{
    let v = chars_of(url.as_str());
    let mut out: Vec<char> = Vec::new();
    let mut i: usize = 0;
    while i < v.len()
        invariant
            v@ == url@,
            i <= v@.len(),
            out@ == url_encoded(v@.take(i as int)),
        decreases v.len() - i,
    {
        proof {
            assert(v@.take(i + 1).drop_last() =~= v@.take(i as int));
        }
        match code_of(v[i]) {
            Some(p) => {
                out.push('%');
                out.push(p.0);
                out.push(p.1);
                proof {
                    assert(out@ =~= url_encoded(v@.take(i as int)) + seq!['%', p.0, p.1]);
                }
            },
            None => {
                out.push(v[i]);
                proof {
                    assert(out@ =~= url_encoded(v@.take(i as int)) + seq![v@[i as int]]);
                }
            },
        }
        i += 1;
    }
    proof {
        assert(v@.take(i as int) =~= v@);
    }
    string_of(&out)
}

/// Whether every `%` of the text starts a three-character code.
pub open spec fn decodable(s: Seq<char>) -> bool
    decreases s.len(),
{
    if s.len() == 0 {
        true
    } else if s[0] == '%' {
        s.len() >= 3 && decodable(s.skip(3))
    } else {
        decodable(s.skip(1))
    }
}

/// URL text with each known percent code replaced by its character;
/// unknown codes are dropped.
pub open spec fn url_decoded(s: Seq<char>) -> Seq<char>
    decreases s.len(),
{
    if s.len() == 0 {
        s
    } else if s[0] == '%' && s.len() >= 3 {
        let head = match pct_char(s.take(3)) {
            Some(c) => seq![c],
            None => Seq::empty(),
        };
        head + url_decoded(s.skip(3))
    } else {
        seq![s[0]] + url_decoded(s.skip(1))
    }
}

proof fn lemma_code_unique(c: char, d: char)
    requires
        pct_code(c) is Some,
        pct_code(c) == pct_code(d),
    ensures
        c == d,
{
}

fn char_of_code(a: char, b: char) -> (r: Option<char>)
    ensures
        r == pct_char(seq!['%', a, b]),
{
    let c = match (a, b) {
        ('2', '0') => ' ', ('2', '1') => '!', ('2', '2') => '"', ('2', '3') => '#',
        ('2', '4') => '$', ('2', '5') => '%', ('2', '6') => '&', ('2', '7') => '\'',
        ('2', '8') => '(', ('2', '9') => ')', ('2', 'A') => '*', ('2', 'B') => '+',
        ('2', 'C') => ',', ('2', 'D') => '-', ('2', 'E') => '.', ('2', 'F') => '/',
        ('3', 'A') => ':', ('3', 'B') => ';', ('3', 'C') => '<', ('3', 'D') => '=',
        ('3', 'E') => '>', ('3', 'F') => '?', ('4', '0') => '@', ('5', 'B') => '[',
        ('5', 'D') => ']', ('5', 'F') => '_',
        _ => {
            proof {
                assert forall|c: char| pct_code(c) != Some(seq!['%', a, b]) by {
                    if pct_code(c) == Some(seq!['%', a, b]) {
                        let q = pct_code(c)->Some_0;
                        assert(q[1] == a && q[2] == b);
                    }
                }
            }
            return None;
        },
    };
    proof {
        assert(pct_code(c) == Some(seq!['%', a, b]));
        let d = choose|d: char| pct_code(d) == Some(seq!['%', a, b]);
        lemma_code_unique(c, d);
    }
    Some(c)
}

/// Replaces each percent code by its character; unknown codes are dropped.
pub fn decode(url: String) -> (r: String)
    requires
        decodable(url@),
    ensures
        r@ == url_decoded(url@),
{
    let v = chars_of(url.as_str());
    let mut out: Vec<char> = Vec::new();
    let mut c: usize = 0;
    proof {
        assert(v@.skip(0) =~= v@);
    }
    while c < v.len()
        invariant
            v@ == url@,
            c <= v@.len(),
            decodable(v@.skip(c as int)),
            out@ + url_decoded(v@.skip(c as int)) == url_decoded(url@),
        decreases v.len() - c,
    {
        let ghost rest = v@.skip(c as int);
        if v[c] == '%' {
            proof {
                assert(rest[0] == '%');
                assert(rest.skip(3) =~= v@.skip(c + 3));
                assert(rest.take(3) =~= seq!['%', v@[c + 1], v@[c + 2]]);
            }
            let piece = char_of_code(v[c + 1], v[c + 2]);
            match piece {
                Some(ch) => {
                    out.push(ch);
                },
                None => {},
            }
            proof {
                assert(out@ + url_decoded(v@.skip(c + 3)) =~= url_decoded(url@));
            }
            c += 3;
        } else {
            proof {
                assert(rest.skip(1) =~= v@.skip(c + 1));
            }
            out.push(v[c]);
            proof {
                assert(out@ + url_decoded(v@.skip(c + 1)) =~= url_decoded(url@));
            }
            c += 1;
        }
    }
    proof {
        assert(out@ + url_decoded(v@.skip(c as int)) == out@);
    }
    string_of(&out)
}

/// `s` turned right by `k` places: its last `k` characters come first.
pub open spec fn rotate_right(s: Seq<char>, k: int) -> Seq<char> {
    s.subrange(s.len() - k, s.len() as int) + s.subrange(0, s.len() - k)
}

/// Turns a password right by `n` places, modulo its length.
pub fn shift(pass: String, n: usize) -> (r: String)
    requires
        pass@.len() > 0,
        all_ascii(pass@),
    ensures
        r@ == rotate_right(pass@, (n % pass@.len() as usize) as int),
{
    let chars = chars_of(pass.as_str());
    let len = chars.len();
    let shifts = n % len;
    let mut out: Vec<char> = Vec::with_capacity(len);
    let mut i: usize = len - shifts;
    while i < len
        invariant
            chars@ == pass@,
            len == chars@.len(),
            shifts < len,
            len - shifts <= i <= len,
            out@ == chars@.subrange(len - shifts, i as int),
        decreases len - i,
    {
        out.push(chars[i]);
        i += 1;
        proof {
            assert(out@ =~= chars@.subrange(len - shifts, i as int));
        }
    }
    let mut j: usize = 0;
    while j < len - shifts
        invariant
            chars@ == pass@,
            len == chars@.len(),
            shifts < len,
            j <= len - shifts,
            out@ == chars@.subrange(len - shifts, len as int) + chars@.subrange(0, j as int),
        decreases len - shifts - j,
    {
        out.push(chars[j]);
        j += 1;
        proof {
            assert(out@ =~= chars@.subrange(len - shifts, len as int) + chars@.subrange(0, j as int));
        }
    }
    string_of(&out)
}

/// The SHA-512 digest of the UTF-8 bytes of a text.
pub uninterp spec fn sha512_of(s: Seq<char>) -> Seq<u8>;

/// Relies on `sha2::Sha512`: fed the text's bytes, it finalizes to a
/// 64-byte digest that depends on the text alone.
#[verifier::external_body]
fn sha512_digest(s: &str) -> (r: Vec<u8>)
    ensures
        r@ == sha512_of(s@),
        r@.len() == 64,
{
    let mut hasher = sha2::Sha512::new();
    hasher.update(s);
    hasher.finalize().to_vec()
}

pub open spec fn hex_digit(v: int) -> char {
    if v < 10 { ((v + 48) as u32) as char } else { ((v + 87) as u32) as char }
}

/// Each byte as two lower-case hex digits, high first.
pub open spec fn hex_of(b: Seq<u8>) -> Seq<char>
    decreases b.len(),
{
    if b.len() == 0 {
        Seq::empty()
    } else {
        hex_of(b.drop_last()) + seq![hex_digit(b.last() as int / 16), hex_digit(b.last() as int % 16)]
    }
}

/// Relies on `hex::encode`: each byte as two lower-case hex digits, high first.
#[verifier::external_body]
fn to_hex(b: &Vec<u8>) -> (r: String)
    ensures
        r@ == hex_of(b@),
{
    hex::encode(b)
}

proof fn lemma_hex_len(b: Seq<u8>)
    ensures
        hex_of(b).len() == 2 * b.len(),
    decreases b.len(),
{
    if b.len() > 0 {
        lemma_hex_len(b.drop_last());
    }
}

/// The lower-case hex of the SHA-512 digest of a text.
pub fn hashme(s: &str) -> (r: String)
    ensures
        r@ == hex_of(sha512_of(s@)),
        r@.len() == 128,
{
    let d = sha512_digest(s);
    proof {
        lemma_hex_len(d@);
    }
    to_hex(&d)
}

/// How many bytes UTF-8 takes for a character.
pub open spec fn utf8_width(c: char) -> int {
    let v = c as u32;
    if v < 0x80 { 1 } else if v < 0x800 { 2 } else if v < 0x10000 { 3 } else { 4 }
}

/// How many bytes UTF-8 takes for the characters.
pub open spec fn utf8_offset(s: Seq<char>) -> int
    decreases s.len(),
{
    if s.len() == 0 { 0 } else { utf8_offset(s.drop_last()) + utf8_width(s.last()) }
}

/// Whether character `k` of `pass` starts at byte 4.
pub open spec fn starts_at_byte_four(pass: Seq<char>, k: int) -> bool {
    0 <= k < pass.len() && utf8_offset(pass.take(k)) == 4
}

/// The password with five hex digits of the digest of `strng` put in
/// before the character that starts at byte 4 (left as it is when no
/// character starts there).
pub open spec fn salted(strng: Seq<char>, pass: Seq<char>) -> Seq<char> {
    let salt = hex_of(sha512_of(strng)).subrange(5, 10);
    if exists|k: int| starts_at_byte_four(pass, k) {
        let k = choose|k: int| starts_at_byte_four(pass, k);
        pass.take(k) + salt + pass.skip(k)
    } else {
        pass
    }
}

proof fn lemma_offset_grows(s: Seq<char>, a: int, b: int)
    requires
        0 <= a < b <= s.len(),
    ensures
        utf8_offset(s.take(a)) < utf8_offset(s.take(b)),
    decreases b - a,
{
    assert(s.take(b).drop_last() =~= s.take(b - 1));
    if a < b - 1 {
        lemma_offset_grows(s, a, b - 1);
    }
}

fn width_of(c: char) -> (r: usize)
    ensures
        r == utf8_width(c),
{
    let v = c as u32;
    if v < 0x80 { 1 } else if v < 0x800 { 2 } else if v < 0x10000 { 3 } else { 4 }
}

/// Puts five digits of the digest of `strng` into the password, before
/// the character that starts at byte 4.
pub fn salt_password(strng: String, pass: String) -> (r: String)
    ensures
        r@ == salted(strng@, pass@),
{
    let hash = chars_of(hashme(strng.as_str()).as_str());
    let p = chars_of(pass.as_str());
    let mut out: Vec<char> = Vec::new();
    let mut i: usize = 0;
    let mut off: usize = 0;
    let ghost salt = hash@.subrange(5, 10);
    let ghost mut at: Option<int> = None;
    while i < p.len()
        invariant
            p@ == pass@,
            hash@.len() == 128,
            salt == hash@.subrange(5, 10),
            i <= p@.len(),
            utf8_offset(p@.take(i as int)) <= 4 ==> off == utf8_offset(p@.take(i as int)),
            utf8_offset(p@.take(i as int)) > 4 ==> off > 4,
            off <= 8,
            at matches Some(k) ==> starts_at_byte_four(p@, k) && k < i
                && out@ == p@.take(k) + salt + p@.subrange(k, i as int),
            at is None ==> out@ == p@.take(i as int) && forall|k: int| 0 <= k < i ==> !#[trigger] starts_at_byte_four(p@, k),
        decreases p.len() - i,
    {
        proof {
            assert(p@.take(i + 1).drop_last() =~= p@.take(i as int));
        }
        if off == 4 {
            proof {
                if let Some(k) = at {
                    lemma_offset_grows(p@, k, i as int);
                }
                assert(out@ =~= p@.take(i as int) + hash@.subrange(5, 5));
            }
            let mut k: usize = 5;
            while k < 10
                invariant
                    hash@.len() == 128,
                    salt == hash@.subrange(5, 10),
                    5 <= k <= 10,
                    out@ == p@.take(i as int) + hash@.subrange(5, k as int),
                decreases 10 - k,
            {
                out.push(hash[k]);
                k += 1;
                proof {
                    assert(out@ =~= p@.take(i as int) + hash@.subrange(5, k as int));
                }
            }
            proof {
                at = Some(i as int);
            }
        }
        out.push(p[i]);
        if off <= 4 {
            off = off + width_of(p[i]);
        }
        i += 1;
        proof {
            match at {
                Some(k) => {
                    assert(out@ =~= p@.take(k) + salt + p@.subrange(k, i as int));
                },
                None => {
                    assert(out@ =~= p@.take(i as int));
                },
            }
        }
    }
    proof {
        match at {
            Some(k) => {
                assert(p@.subrange(k, i as int) =~= p@.skip(k));
                assert forall|q: int| #[trigger] starts_at_byte_four(p@, q) implies q == k by {
                    if q < k {
                        lemma_offset_grows(p@, q, k);
                    } else if k < q {
                        lemma_offset_grows(p@, k, q);
                    }
                }
            },
            None => {
                assert(p@.take(i as int) =~= p@);
            },
        }
    }
    string_of(&out)
}

} // verus!
