//! Text helpers used by the ledger core: building strings character by
//! character, rendering integers in decimal, joining transaction lists with a
//! fixed separator, and the fixed-width character-array form of an owner
//! identifier.

use vstd::prelude::*;

verus! {

/// Relies on String::push: appends exactly one character at the end.
#[verifier::external_body]
pub(crate) fn push_char(s: &mut String, c: char)
    ensures
        final(s)@ == old(s)@.push(c),
{
    s.push(c);
}

/// The decimal digit character for a value below ten.
pub open spec fn digit_char(d: int) -> char {
    if d == 0 {
        '0'
    } else if d == 1 {
        '1'
    } else if d == 2 {
        '2'
    } else if d == 3 {
        '3'
    } else if d == 4 {
        '4'
    } else if d == 5 {
        '5'
    } else if d == 6 {
        '6'
    } else if d == 7 {
        '7'
    } else if d == 8 {
        '8'
    } else {
        '9'
    }
}

/// The decimal rendering of a natural number, most significant digit first,
/// with no leading zeros (a single `'0'` for zero).
pub open spec fn dec_nat(n: nat) -> Seq<char>
    decreases n,
{
    if n < 10 {
        seq![digit_char(n as int)]
    } else {
        dec_nat(n / 10) + seq![digit_char((n % 10) as int)]
    }
}

/// The decimal rendering of an integer: a leading `'-'` for negatives.
pub open spec fn dec_int(n: int) -> Seq<char> {
    if n < 0 {
        seq!['-'] + dec_nat((-n) as nat)
    } else {
        dec_nat(n as nat)
    }
}

fn digit_to_char(d: u8) -> (c: char)
    requires
        d < 10,
    ensures
        c == digit_char(d as int),
{
    if d == 0 {
        '0'
    } else if d == 1 {
        '1'
    } else if d == 2 {
        '2'
    } else if d == 3 {
        '3'
    } else if d == 4 {
        '4'
    } else if d == 5 {
        '5'
    } else if d == 6 {
        '6'
    } else if d == 7 {
        '7'
    } else if d == 8 {
        '8'
    } else {
        '9'
    }
}

/// Renders an unsigned integer in decimal.
pub fn u64_to_string(n: u64) -> (r: String)
    ensures
        r@ == dec_nat(n as nat),
    decreases n,
{
    if n < 10 {
        let mut s = String::new();
        push_char(&mut s, digit_to_char(n as u8));
        proof {
            assert(s@ =~= dec_nat(n as nat));
        }
        s
    } else {
        let mut s = u64_to_string(n / 10);
        push_char(&mut s, digit_to_char((n % 10) as u8));
        proof {
            assert(s@ =~= dec_nat(n as nat));
        }
        s
    }
}

/// Renders a signed integer in decimal.
pub fn i32_to_string(n: i32) -> (r: String)
    ensures
        r@ == dec_int(n as int),
{
    if n < 0 {
        let m: u64 = (-(n as i64)) as u64;
        let mut s = String::new();
        push_char(&mut s, '-');
        let digits = u64_to_string(m);
        s.append(digits.as_str());
        proof {
            assert(s@ =~= dec_int(n as int));
        }
        s
    } else {
        u64_to_string(n as u64)
    }
}

/// Ten to the given power.
pub open spec fn ten_to(k: nat) -> nat
    decreases k,
{
    if k == 0 {
        1nat
    } else {
        10 * ten_to((k - 1) as nat)
    }
}

/// A number below ten to the k renders in at most k digits.
pub proof fn lemma_dec_nat_len(n: nat, k: nat)
    requires
        k >= 1,
        n < ten_to(k),
    ensures
        dec_nat(n).len() <= k,
    decreases n,
{
    if n < 10 {
    } else {
        assert(ten_to(1) == 10 * ten_to(0));
        assert(ten_to(0) == 1);
        assert(k >= 2);
        vstd::arithmetic::div_mod::lemma_fundamental_div_mod(n as int, 10);
        vstd::arithmetic::div_mod::lemma_mod_bound(n as int, 10);
        assert(n / 10 < ten_to((k - 1) as nat));
        lemma_dec_nat_len(n / 10, (k - 1) as nat);
    }
}

proof fn lemma_ten_to_values()
    ensures
        ten_to(10) == 10_000_000_000,
        ten_to(20) == 100_000_000_000_000_000_000,
{
    assert(ten_to(0) == 1);
    assert(ten_to(1) == 10);
    assert(ten_to(2) == 100);
    assert(ten_to(3) == 1000);
    assert(ten_to(4) == 10_000);
    assert(ten_to(5) == 100_000);
    assert(ten_to(6) == 1_000_000);
    assert(ten_to(7) == 10_000_000);
    assert(ten_to(8) == 100_000_000);
    assert(ten_to(9) == 1_000_000_000);
    assert(ten_to(10) == 10_000_000_000);
    assert(ten_to(11) == 100_000_000_000);
    assert(ten_to(12) == 1_000_000_000_000);
    assert(ten_to(13) == 10_000_000_000_000);
    assert(ten_to(14) == 100_000_000_000_000);
    assert(ten_to(15) == 1_000_000_000_000_000);
    assert(ten_to(16) == 10_000_000_000_000_000);
    assert(ten_to(17) == 100_000_000_000_000_000);
    assert(ten_to(18) == 1_000_000_000_000_000_000);
    assert(ten_to(19) == 10_000_000_000_000_000_000);
    assert(ten_to(20) == 100_000_000_000_000_000_000);
}

/// Any 64-bit value renders in at most twenty digits.
pub proof fn lemma_dec_nat_len_u64(n: nat)
    requires
        n <= u64::MAX,
    ensures
        dec_nat(n).len() <= 20,
{
    lemma_ten_to_values();
    lemma_dec_nat_len(n, 20);
}

/// Any 32-bit signed value renders in at most eleven characters, the sign
/// included.
pub proof fn lemma_dec_int_len_i32(n: int)
    requires
        i32::MIN <= n <= i32::MAX,
    ensures
        dec_int(n).len() <= 11,
{
    lemma_ten_to_values();
    if n < 0 {
        lemma_dec_nat_len((-n) as nat, 10);
    } else {
        lemma_dec_nat_len(n as nat, 10);
    }
}

/// The parts joined by a single `','` between neighbours; no trailing
/// separator.
pub open spec fn join_commas(parts: Seq<Seq<char>>) -> Seq<char>
    decreases parts.len(),
{
    if parts.len() == 0 {
        Seq::empty()
    } else if parts.len() == 1 {
        parts[0]
    } else {
        parts[0] + seq![','] + join_commas(parts.drop_first())
    }
}

proof fn lemma_join_commas_snoc(parts: Seq<Seq<char>>, last: Seq<char>)
    requires
        parts.len() >= 1,
    ensures
        join_commas(parts.push(last)) == join_commas(parts) + seq![','] + last,
    decreases parts.len(),
{
    let p = parts.push(last);
    if parts.len() == 1 {
        assert(p.drop_first() =~= seq![last]);
        assert(join_commas(seq![last]) == seq![last][0]);
        assert(join_commas(p) == p[0] + seq![','] + last);
        assert(join_commas(p) =~= join_commas(parts) + seq![','] + last);
    } else {
        assert(p.drop_first() =~= parts.drop_first().push(last));
        lemma_join_commas_snoc(parts.drop_first(), last);
        assert(join_commas(p) == p[0] + seq![','] + join_commas(p.drop_first()));
        assert(join_commas(parts) == parts[0] + seq![','] + join_commas(parts.drop_first()));
        assert(join_commas(p) =~= join_commas(parts) + seq![','] + last);
    }
}

/// Joins the parts with a `','` between neighbours, as the canonical block
/// serialization does with the transaction list.
pub fn join_with_commas(parts: &Vec<String>) -> (r: String)
    ensures
        r@ == join_commas(parts.deep_view()),
{
    let mut s = String::new();
    if parts.len() == 0 {
        return s;
    }
    s.append(parts[0].as_str());
    let mut i: usize = 1;
    proof {
        assert(parts.deep_view().take(1) =~= seq![parts.deep_view()[0]]);
    }
    while i < parts.len()
        invariant
            1 <= i <= parts@.len(),
            parts.deep_view().len() == parts@.len(),
            s@ == join_commas(parts.deep_view().take(i as int)),
        decreases parts@.len() - i,
    {
        push_char(&mut s, ',');
        s.append(parts[i].as_str());
        proof {
            lemma_join_commas_snoc(
                parts.deep_view().take(i as int),
                parts.deep_view()[i as int],
            );
            assert(parts.deep_view().take(i + 1) =~= parts.deep_view().take(i as int).push(
                parts.deep_view()[i as int],
            ));
        }
        i += 1;
    }
    proof {
        assert(parts.deep_view().take(parts@.len() as int) =~= parts.deep_view());
    }
    s
}

/// Copies an identifier into a fixed-width character array, padding the tail
/// with NUL characters. Identifiers longer than the width are rejected by the
/// precondition rather than truncated silently.
pub fn string_to_arr<const N: usize>(string: &str) -> (r: [char; N])
    requires
        string@.len() <= N,
    ensures
        r@.len() == N,
        forall|i: int| 0 <= i < string@.len() ==> r@[i] == string@[i],
        forall|i: int| string@.len() <= i < N ==> r@[i] == '\0',
{
    let mut data: [char; N] = ['\0'; N];
    let n = string.unicode_len();
    let mut i: usize = 0;
    while i < n
        invariant
            i <= n,
            n == string@.len() <= N,
            data@.len() == N,
            forall|j: int| 0 <= j < i ==> data@[j] == string@[j],
            forall|j: int| i <= j < N ==> data@[j] == '\0',
        decreases n - i,
    {
        data[i] = string.get_char(i);
        i += 1;
    }
    data
}

/// Collects the characters of a fixed-width identifier back into a string,
/// NUL padding included.
pub fn arr_to_string(arr: &[char]) -> (r: String)
    ensures
        r@ == arr@,
{
    let mut s = String::new();
    let mut i: usize = 0;
    while i < arr.len()
        invariant
            i <= arr@.len(),
            s@ == arr@.take(i as int),
        decreases arr@.len() - i,
    {
        push_char(&mut s, arr[i]);
        proof {
            assert(arr@.take(i + 1) =~= arr@.take(i as int).push(arr@[i as int]));
        }
        i += 1;
    }
    proof {
        assert(arr@.take(arr@.len() as int) =~= arr@);
    }
    s
}

} // verus!
