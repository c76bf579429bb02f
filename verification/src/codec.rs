//! The lossless text codec for hash digests: lowercase hexadecimal, two
//! digits per byte. Every byte sequence encodes, every encoding decodes back
//! to the exact original bytes, so no digest is ever lost to an invalid text
//! reinterpretation.

use vstd::prelude::*;

use crate::errors::SizeError;
use crate::text::push_char;

verus! {

/// The hexadecimal digit character for a value below sixteen.
pub open spec fn hex_digit(d: int) -> char {
    if d == 0 {
        '0'
    } else if d == 1 {
        '1'
    } else if d == 2 {
        '2'
    } else if d == 3 {
        '3'
    } else if d == 4 {
        '4'
    } else if d == 5 {
        '5'
    } else if d == 6 {
        '6'
    } else if d == 7 {
        '7'
    } else if d == 8 {
        '8'
    } else if d == 9 {
        '9'
    } else if d == 10 {
        'a'
    } else if d == 11 {
        'b'
    } else if d == 12 {
        'c'
    } else if d == 13 {
        'd'
    } else if d == 14 {
        'e'
    } else {
        'f'
    }
}

/// The two hexadecimal digits of one byte, high nibble first.
pub open spec fn hex_of_byte(b: u8) -> Seq<char> {
    seq![hex_digit(b as int / 16), hex_digit(b as int % 16)]
}

/// The hexadecimal text of a byte sequence, in order.
pub open spec fn hex_of(bytes: Seq<u8>) -> Seq<char>
    decreases bytes.len(),
{
    if bytes.len() == 0 {
        Seq::empty()
    } else {
        hex_of_byte(bytes[0]) + hex_of(bytes.drop_first())
    }
}

/// Whether a character is one of the sixteen lowercase hexadecimal digits.
pub open spec fn is_hex_digit(c: char) -> bool {
    c == '0' || c == '1' || c == '2' || c == '3' || c == '4' || c == '5' || c == '6' || c == '7'
        || c == '8' || c == '9' || c == 'a' || c == 'b' || c == 'c' || c == 'd' || c == 'e' || c
        == 'f'
}

/// The value of a hexadecimal digit character.
pub open spec fn hex_val(c: char) -> int {
    if c == '0' {
        0
    } else if c == '1' {
        1
    } else if c == '2' {
        2
    } else if c == '3' {
        3
    } else if c == '4' {
        4
    } else if c == '5' {
        5
    } else if c == '6' {
        6
    } else if c == '7' {
        7
    } else if c == '8' {
        8
    } else if c == '9' {
        9
    } else if c == 'a' {
        10
    } else if c == 'b' {
        11
    } else if c == 'c' {
        12
    } else if c == 'd' {
        13
    } else if c == 'e' {
        14
    } else {
        15
    }
}

/// Whether a text can be decoded: an even number of characters, all of them
/// hexadecimal digits.
pub open spec fn hex_decodable(s: Seq<char>) -> bool {
    s.len() % 2 == 0 && forall|i: int| 0 <= i < s.len() ==> is_hex_digit(#[trigger] s[i])
}

/// The bytes a hexadecimal text stands for, two digits per byte.
pub open spec fn hex_decode(s: Seq<char>) -> Seq<u8>
    decreases s.len(),
{
    if s.len() < 2 {
        Seq::empty()
    } else {
        seq![(hex_val(s[0]) * 16 + hex_val(s[1])) as u8] + hex_decode(s.skip(2))
    }
}

proof fn lemma_hex_of_snoc(bytes: Seq<u8>, b: u8)
    ensures
        hex_of(bytes.push(b)) == hex_of(bytes) + hex_of_byte(b),
    decreases bytes.len(),
{
    let p = bytes.push(b);
    if bytes.len() == 0 {
        assert(p.drop_first() =~= Seq::<u8>::empty());
        assert(hex_of(p) =~= hex_of(bytes) + hex_of_byte(b));
    } else {
        assert(p.drop_first() =~= bytes.drop_first().push(b));
        lemma_hex_of_snoc(bytes.drop_first(), b);
        assert(hex_of(p) == hex_of_byte(p[0]) + hex_of(p.drop_first()));
        assert(hex_of(bytes) == hex_of_byte(bytes[0]) + hex_of(bytes.drop_first()));
        assert(hex_of(p) =~= hex_of(bytes) + hex_of_byte(b));
    }
}

/// The hexadecimal text of a byte sequence is twice as long.
pub proof fn lemma_hex_of_len(bytes: Seq<u8>)
    ensures
        hex_of(bytes).len() == 2 * bytes.len(),
    decreases bytes.len(),
{
    if bytes.len() > 0 {
        lemma_hex_of_len(bytes.drop_first());
    }
}

fn hex_digit_to_char(d: u8) -> (c: char)
    requires
        d < 16,
    ensures
        c == hex_digit(d as int),
{
    if d == 0 {
        '0'
    } else if d == 1 {
        '1'
    } else if d == 2 {
        '2'
    } else if d == 3 {
        '3'
    } else if d == 4 {
        '4'
    } else if d == 5 {
        '5'
    } else if d == 6 {
        '6'
    } else if d == 7 {
        '7'
    } else if d == 8 {
        '8'
    } else if d == 9 {
        '9'
    } else if d == 10 {
        'a'
    } else if d == 11 {
        'b'
    } else if d == 12 {
        'c'
    } else if d == 13 {
        'd'
    } else if d == 14 {
        'e'
    } else {
        'f'
    }
}

fn hex_char_to_val(c: char) -> (r: Option<u8>)
    ensures
        match r {
            Some(v) => is_hex_digit(c) && v < 16 && v as int == hex_val(c),
            None => !is_hex_digit(c),
        },
{
    if c == '0' {
        Some(0)
    } else if c == '1' {
        Some(1)
    } else if c == '2' {
        Some(2)
    } else if c == '3' {
        Some(3)
    } else if c == '4' {
        Some(4)
    } else if c == '5' {
        Some(5)
    } else if c == '6' {
        Some(6)
    } else if c == '7' {
        Some(7)
    } else if c == '8' {
        Some(8)
    } else if c == '9' {
        Some(9)
    } else if c == 'a' {
        Some(10)
    } else if c == 'b' {
        Some(11)
    } else if c == 'c' {
        Some(12)
    } else if c == 'd' {
        Some(13)
    } else if c == 'e' {
        Some(14)
    } else if c == 'f' {
        Some(15)
    } else {
        None
    }
}

/// Encodes bytes as lowercase hexadecimal text. Always succeeds, for any
/// byte sequence.
pub fn encode_hex(bytes: &Vec<u8>) -> (r: String)
    ensures
        r@ == hex_of(bytes@),
        r@.len() == 2 * bytes@.len(),
{
    let mut s = String::new();
    let mut i: usize = 0;
    while i < bytes.len()
        invariant
            i <= bytes@.len(),
            s@ == hex_of(bytes@.take(i as int)),
        decreases bytes@.len() - i,
    {
        let b = bytes[i];
        push_char(&mut s, hex_digit_to_char(b / 16));
        push_char(&mut s, hex_digit_to_char(b % 16));
        proof {
            lemma_hex_of_snoc(bytes@.take(i as int), b);
            assert(bytes@.take(i + 1) =~= bytes@.take(i as int).push(b));
            assert(s@ =~= hex_of(bytes@.take(i + 1)));
        }
        i += 1;
    }
    proof {
        assert(bytes@.take(bytes@.len() as int) =~= bytes@);
        lemma_hex_of_len(bytes@);
    }
    s
}

proof fn lemma_hex_decode_snoc(s: Seq<char>, c1: char, c2: char)
    requires
        s.len() % 2 == 0,
    ensures
        hex_decode(s + seq![c1, c2]) == hex_decode(s) + seq![
            (hex_val(c1) * 16 + hex_val(c2)) as u8,
        ],
    decreases s.len(),
{
    let p = s + seq![c1, c2];
    if s.len() == 0 {
        assert(p.skip(2) =~= Seq::<char>::empty());
        assert(hex_decode(p) =~= hex_decode(s) + seq![(hex_val(c1) * 16 + hex_val(c2)) as u8]);
    } else {
        let v = (hex_val(c1) * 16 + hex_val(c2)) as u8;
        assert(p.skip(2) =~= s.skip(2) + seq![c1, c2]);
        lemma_hex_decode_snoc(s.skip(2), c1, c2);
        assert(hex_decode(p.skip(2)) == hex_decode(s.skip(2)) + seq![v]);
        assert(p[0] == s[0] && p[1] == s[1]);
        assert(hex_decode(p) == seq![(hex_val(p[0]) * 16 + hex_val(p[1])) as u8] + hex_decode(
            p.skip(2),
        ));
        assert(hex_decode(s) == seq![(hex_val(s[0]) * 16 + hex_val(s[1])) as u8] + hex_decode(
            s.skip(2),
        ));
        assert(hex_decode(p) =~= hex_decode(s) + seq![v]);
    }
}

/// Decodes hexadecimal text back to the bytes it stands for. Returns a size
/// error exactly when the text is not decodable: an odd number of characters,
/// or a character that is no lowercase hexadecimal digit.
pub fn decode_hex(s: &str) -> (r: Result<Vec<u8>, SizeError>)
    ensures
        r is Ok <==> hex_decodable(s@),
        r matches Ok(v) ==> v@ == hex_decode(s@) && 2 * v@.len() == s@.len(),
        r matches Err(e) ==> e.msg@ == if s@.len() % 2 != 0 {
            "hex digest text must have an even number of digits"@
        } else {
            "hex digest text holds a non-hex character"@
        },
{
    let n = s.unicode_len();
    if n % 2 != 0 {
        return Err(SizeError::new("hex digest text must have an even number of digits"));
    }
    let mut out: Vec<u8> = Vec::new();
    let mut i: usize = 0;
    while i < n
        invariant
            i <= n,
            i % 2 == 0,
            n % 2 == 0,
            n == s@.len(),
            out@ == hex_decode(s@.take(i as int)),
            2 * out@.len() == i,
            forall|j: int| 0 <= j < i ==> is_hex_digit(#[trigger] s@[j]),
        decreases n - i,
    {
        let c1 = s.get_char(i);
        let c2 = s.get_char(i + 1);
        let v1 = match hex_char_to_val(c1) {
            Some(v) => v,
            None => {
                return Err(SizeError::new("hex digest text holds a non-hex character"));
            },
        };
        let v2 = match hex_char_to_val(c2) {
            Some(v) => v,
            None => {
                return Err(SizeError::new("hex digest text holds a non-hex character"));
            },
        };
        out.push(v1 * 16 + v2);
        proof {
            lemma_hex_decode_snoc(s@.take(i as int), c1, c2);
            assert(s@.take(i + 2) =~= s@.take(i as int) + seq![c1, c2]);
            assert(out@ =~= hex_decode(s@.take(i + 2)));
        }
        i += 2;
    }
    proof {
        assert(s@.take(s@.len() as int) =~= s@);
    }
    Ok(out)
}

/// Law: the hexadecimal text of any byte sequence is decodable, and decoding
/// it returns exactly the original bytes.
pub proof fn lemma_hex_round_trip(bytes: Seq<u8>)
    ensures
        hex_decodable(hex_of(bytes)),
        hex_decode(hex_of(bytes)) == bytes,
    decreases bytes.len(),
{
    lemma_hex_of_len(bytes);
    if bytes.len() == 0 {
        assert(hex_decode(hex_of(bytes)) =~= bytes);
    } else {
        let b = bytes[0];
        let h = hex_of(bytes);
        lemma_hex_round_trip(bytes.drop_first());
        lemma_hex_of_len(bytes.drop_first());
        assert(h == hex_of_byte(b) + hex_of(bytes.drop_first()));
        assert(h[0] == hex_digit(b as int / 16) && h[1] == hex_digit(b as int % 16));
        assert(is_hex_digit(hex_digit(b as int / 16)));
        assert(is_hex_digit(hex_digit(b as int % 16)));
        assert(hex_val(hex_digit(b as int / 16)) == b as int / 16);
        assert(hex_val(hex_digit(b as int % 16)) == b as int % 16);
        assert(forall|i: int| 2 <= i < h.len() ==> h[i] == hex_of(bytes.drop_first())[i - 2]);
        assert(forall|i: int| 0 <= i < h.len() ==> is_hex_digit(#[trigger] h[i]));
        assert(hex_decodable(h));
        assert(h.skip(2) =~= hex_of(bytes.drop_first()));
        assert((b as int / 16) * 16 + b as int % 16 == b as int);
        assert(hex_decode(h) == seq![(hex_val(h[0]) * 16 + hex_val(h[1])) as u8] + hex_decode(
            h.skip(2),
        ));
        assert(hex_decode(h) =~= bytes);
    }
}

/// Law: encoding the bytes a decodable hexadecimal text stands for returns
/// exactly that text, so the codec is a bijection between byte sequences and
/// decodable texts.
pub proof fn lemma_hex_encode_decode(s: Seq<char>)
    requires
        hex_decodable(s),
    ensures
        hex_of(hex_decode(s)) == s,
    decreases s.len(),
{
    if s.len() == 0 {
        assert(hex_of(hex_decode(s)) =~= s);
    } else {
        let v1 = hex_val(s[0]);
        let v2 = hex_val(s[1]);
        let b = (v1 * 16 + v2) as u8;
        assert(is_hex_digit(s[0]) && is_hex_digit(s[1]));
        assert(0 <= v1 < 16 && 0 <= v2 < 16);
        assert(b as int == v1 * 16 + v2);
        vstd::arithmetic::div_mod::lemma_fundamental_div_mod(b as int, 16);
        vstd::arithmetic::div_mod::lemma_mod_bound(b as int, 16);
        assert(b as int / 16 == v1 && b as int % 16 == v2) by {
            assert(16 * (b as int / 16) + b as int % 16 == v1 * 16 + v2);
        }
        assert(hex_digit(v1) == s[0]);
        assert(hex_digit(v2) == s[1]);
        assert(hex_of_byte(b) =~= seq![s[0], s[1]]);
        let rest = s.skip(2);
        assert(rest.len() % 2 == 0);
        assert(forall|i: int| 0 <= i < rest.len() ==> #[trigger] rest[i] == s[i + 2]);
        assert(hex_decodable(rest));
        lemma_hex_encode_decode(rest);
        let d = hex_decode(s);
        assert(d == seq![b] + hex_decode(rest));
        assert(d.len() >= 1);
        assert(d[0] == b);
        assert(d.drop_first() =~= hex_decode(rest));
        assert(hex_of(d) == hex_of_byte(b) + hex_of(d.drop_first()));
        assert(hex_of(d) =~= s);
    }
}

/// A digest beside its lossless text form: the text is the hexadecimal
/// encoding of the bytes.
pub struct HashtoString {
    pub hash: Vec<u8>,
    pub string: String,
}

impl HashtoString {
    /// Encodes the digest; the encoding succeeds for every byte sequence.
    pub fn new(hash: Vec<u8>) -> (r: HashtoString)
        ensures
            r.hash@ == hash@,
            r.string@ == hex_of(hash@),
    {
        let string = encode_hex(&hash);
        HashtoString { hash, string }
    }

    /// The text form of the digest.
    pub fn get_string(&self) -> (r: String)
        ensures
            r@ == self.string@,
    {
        self.string.clone()
    }
}

/// A digest text beside the bytes it stands for: the bytes are the decoding
/// of the hexadecimal text.
pub struct StringtoHash {
    pub string: String,
    pub hash: Vec<u8>,
}

impl StringtoHash {
    /// Decodes the text; fails with a size error exactly when the text is
    /// not valid hexadecimal of even length.
    pub fn new(string: String) -> (r: Result<StringtoHash, SizeError>)
        ensures
            r is Ok <==> hex_decodable(string@),
            r matches Ok(sh) ==> sh.string@ == string@ && sh.hash@ == hex_decode(string@),
    {
        match decode_hex(string.as_str()) {
            Ok(hash) => Ok(StringtoHash { string, hash }),
            Err(e) => Err(e),
        }
    }

    /// The decoded digest bytes.
    pub fn get_hash(&self) -> (r: Vec<u8>)
        ensures
            r@ == self.hash@,
    {
        self.hash.clone()
    }
}

} // verus!
