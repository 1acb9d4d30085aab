use vstd::prelude::*;
use vstd::string::*;

verus! {

/// The decimal digit characters, indexed by value.
pub open spec fn digit_char(d: nat) -> char {
    seq!['0', '1', '2', '3', '4', '5', '6', '7', '8', '9'][d as int]
}

/// Decimal text of `n`, without sign or leading zeros.
pub open spec fn decimal_of(n: nat) -> Seq<char>
    decreases n,
{
    if n < 10 {
        seq![digit_char(n)]
    } else {
        decimal_of(n / 10).push(digit_char(n % 10))
    }
}

pub open spec fn is_digit(c: char) -> bool {
    '0' <= c && c <= '9'
}

/// Identifier of the `n`-th collection: `collection-<n>`.
pub open spec fn collection_id_of(n: nat) -> Seq<char> {
    seq!['c', 'o', 'l', 'l', 'e', 'c', 't', 'i', 'o', 'n', '-'] + decimal_of(n)
}

/// Identifier of the token minted with sequence number `n`: `token-<n>`.
pub open spec fn token_id_of(n: nat) -> Seq<char> {
    seq!['t', 'o', 'k', 'e', 'n', '-'] + decimal_of(n)
}

/// Identifier of copy `k` of a mint with sequence number `n`: `token-<n>-<k>`.
pub open spec fn copy_token_id_of(n: nat, k: nat) -> Seq<char> {
    token_id_of(n) + seq!['-'] + decimal_of(k)
}

/// Title of copy `k` of a token titled `title`: `<title> #<k>`.
pub open spec fn copy_title_of(title: Seq<char>, k: nat) -> Seq<char> {
    title + seq![' ', '#'] + decimal_of(k)
}

proof fn lemma_digit_char(d: nat)
    requires
        d < 10,
    ensures
        is_digit(digit_char(d)),
        forall|e: nat| e < 10 && digit_char(e) == digit_char(d) ==> e == d,
{
}

/// Decimal text is made of digits only, and has two or more of them from ten on.
pub proof fn lemma_decimal_shape(n: nat)
    ensures
        decimal_of(n).len() >= 1,
        n >= 10 ==> decimal_of(n).len() >= 2,
        forall|i: int| 0 <= i < decimal_of(n).len() ==> is_digit(#[trigger] decimal_of(n)[i]),
    decreases n,
{
    lemma_digit_char(n % 10);
    if n >= 10 {
        lemma_decimal_shape(n / 10);
        assert forall|i: int| 0 <= i < decimal_of(n).len() implies is_digit(
            #[trigger] decimal_of(n)[i],
        ) by {
            if i < decimal_of(n / 10).len() {
                assert(decimal_of(n)[i] == decimal_of(n / 10)[i]);
            }
        }
    }
}

/// Distinct numbers have distinct decimal texts.
pub proof fn lemma_decimal_injective(a: nat, b: nat)
    requires
        decimal_of(a) == decimal_of(b),
    ensures
        a == b,
    decreases a,
{
    lemma_decimal_shape(a);
    lemma_decimal_shape(b);
    lemma_digit_char(a % 10);
    lemma_digit_char(b % 10);
    if a < 10 && b < 10 {
        lemma_digit_char(a);
        lemma_digit_char(b);
        assert(decimal_of(a) =~= seq![digit_char(a)]);
        assert(decimal_of(b) =~= seq![digit_char(b)]);
        assert(seq![digit_char(a)][0] == digit_char(a));
        assert(seq![digit_char(b)][0] == digit_char(b));
    } else if a >= 10 && b >= 10 {
        let da = decimal_of(a);
        let db = decimal_of(b);
        assert(da.last() == digit_char(a % 10));
        assert(db.last() == digit_char(b % 10));
        assert(da.drop_last() =~= decimal_of(a / 10));
        assert(db.drop_last() =~= decimal_of(b / 10));
        lemma_decimal_injective(a / 10, b / 10);
        assert(a == 10 * (a / 10) + a % 10) by (nonlinear_arith);
        assert(b == 10 * (b / 10) + b % 10) by (nonlinear_arith);
    } else if a < 10 {
        assert(decimal_of(a).len() == 1);
    } else {
        assert(decimal_of(b).len() == 1);
    }
}

/// Equal concatenations of a fixed prefix and two decimal texts have equal suffixes.
proof fn lemma_prefixed_decimal_injective(p: Seq<char>, a: nat, b: nat)
    requires
        p + decimal_of(a) == p + decimal_of(b),
    ensures
        a == b,
{
    let x = p + decimal_of(a);
    assert(x.subrange(p.len() as int, x.len() as int) =~= decimal_of(a));
    assert((p + decimal_of(b)).subrange(p.len() as int, x.len() as int) =~= decimal_of(b));
    lemma_decimal_injective(a, b);
}

/// Two collections with different numbers never share an identifier.
pub proof fn lemma_collection_ids_distinct(a: nat, b: nat)
    requires
        a != b,
    ensures
        collection_id_of(a) != collection_id_of(b),
{
    if collection_id_of(a) == collection_id_of(b) {
        lemma_prefixed_decimal_injective(
            seq!['c', 'o', 'l', 'l', 'e', 'c', 't', 'i', 'o', 'n', '-'],
            a,
            b,
        );
    }
}

/// Two mints with different numbers never share a plain token identifier.
pub proof fn lemma_token_ids_distinct(a: nat, b: nat)
    requires
        a != b,
    ensures
        token_id_of(a) != token_id_of(b),
{
    if token_id_of(a) == token_id_of(b) {
        lemma_prefixed_decimal_injective(seq!['t', 'o', 'k', 'e', 'n', '-'], a, b);
    }
}

/// A plain token identifier is never the identifier of a copy.
pub proof fn lemma_token_id_not_copy_id(a: nat, b: nat, k: nat)
    ensures
        token_id_of(a) != copy_token_id_of(b, k),
{
    let pre = seq!['t', 'o', 'k', 'e', 'n', '-'];
    let x = token_id_of(a);
    let y = copy_token_id_of(b, k);
    lemma_decimal_shape(a);
    lemma_decimal_shape(b);
    lemma_decimal_shape(k);
    if x == y {
        if x.len() == y.len() {
            // y is longer than x by the separator and the copy number
            assert(y.len() == 6 + decimal_of(b).len() + 1 + decimal_of(k).len());
        }
        let i = 6 + decimal_of(b).len() as int;
        assert(y[i] == '-');
        assert(x[i] == decimal_of(a)[i - 6]);
        assert(is_digit(decimal_of(a)[i - 6]));
    }
}

/// Copies of two mints, or two copies of one mint, never share an identifier.
pub proof fn lemma_copy_ids_distinct(a: nat, j: nat, b: nat, k: nat)
    requires
        a != b || j != k,
    ensures
        copy_token_id_of(a, j) != copy_token_id_of(b, k),
{
    let x = copy_token_id_of(a, j);
    let y = copy_token_id_of(b, k);
    lemma_decimal_shape(a);
    lemma_decimal_shape(b);
    lemma_decimal_shape(j);
    lemma_decimal_shape(k);
    if x == y {
        let la = decimal_of(a).len() as int;
        let lb = decimal_of(b).len() as int;
        if la < lb {
            assert(x[6 + la] == '-');
            assert(y[6 + la] == decimal_of(b)[la]);
            assert(is_digit(decimal_of(b)[la]));
        } else if lb < la {
            assert(y[6 + lb] == '-');
            assert(x[6 + lb] == decimal_of(a)[lb]);
            assert(is_digit(decimal_of(a)[lb]));
        } else {
            assert(x.subrange(6, 6 + la) =~= decimal_of(a));
            assert(y.subrange(6, 6 + lb) =~= decimal_of(b));
            lemma_decimal_injective(a, b);
            assert(x.subrange(7 + la, x.len() as int) =~= decimal_of(j));
            assert(y.subrange(7 + lb, y.len() as int) =~= decimal_of(k));
            lemma_decimal_injective(j, k);
        }
    }
}

/// Relies on the standard library's `Display` for integers, through
/// `to_string`: decimal digits with no sign and no leading zeros.
#[verifier::external_body]
fn decimal_string(n: u128) -> (r: String)
    ensures
        r@ == decimal_of(n as nat),
{
    n.to_string()
}

/// The identifier of the `n`-th collection.
pub fn collection_id_for(n: u128) -> (r: String)
    ensures
        r@ == collection_id_of(n as nat),
{
    let prefix = String::from_str("collection-");
    proof {
        reveal_strlit("collection-");
    }
    prefix.concat(decimal_string(n).as_str())
}

/// The identifier of the token minted with sequence number `n`.
pub fn token_id_for(n: u128) -> (r: String)
    ensures
        r@ == token_id_of(n as nat),
{
    let prefix = String::from_str("token-");
    proof {
        reveal_strlit("token-");
    }
    prefix.concat(decimal_string(n).as_str())
}

/// The identifier of copy `k` of the token `base`.
pub fn copy_token_id(base: &String, k: u64) -> (r: String)
    ensures
        r@ == base@ + seq!['-'] + decimal_of(k as nat),
{
    proof {
        reveal_strlit("-");
    }
    base.clone().concat("-").concat(decimal_string(k as u128).as_str())
}

/// The title of copy `k` of a token titled `title`.
pub fn copy_title(title: &String, k: u64) -> (r: String)
    ensures
        r@ == copy_title_of(title@, k as nat),
{
    proof {
        reveal_strlit(" #");
    }
    title.clone().concat(" #").concat(decimal_string(k as u128).as_str())
}

/// Decimal text of a count, as the supply queries report it.
pub fn count_string(n: u64) -> (r: String)
    ensures
        r@ == decimal_of(n as nat),
{
    decimal_string(n as u128)
}

} // verus!
