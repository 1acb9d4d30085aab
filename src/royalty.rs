use vstd::arithmetic::div_mod::{lemma_div_is_ordered, lemma_div_multiples_vanish, lemma_div_multiples_vanish_fancy, lemma_fundamental_div_mod, lemma_mod_bound};
use vstd::prelude::*;
use vstd::utf8::encode_utf8;

use crate::error::ContractError;

verus! {

/// The whole of a sale, in hundredths of a percent.
pub const MAX_PAYOUT: u128 = 10_000;

/// The most accounts that one royalty record may name.
pub const MAX_LEN_PAYOUT: usize = 10;

/// A map from account to amount: royalty shares (in hundredths of a
/// percent) when stored with a token, sums of money when computed for a sale.
/// Each account appears at most once.
pub struct Payout {
    pub payout: Vec<(String, u128)>,
}

impl Payout {
    /// An empty map.
    pub fn new() -> (r: Payout)
        ensures
            r@ == Seq::<(Seq<char>, u128)>::empty(),
    {
        let r = Payout { payout: Vec::new() };
        assert(r@ =~= Seq::<(Seq<char>, u128)>::empty());
        r
    }
}

impl Clone for Payout {
    fn clone(&self) -> (r: Self)
        ensures
            r@ == self@,
    {
        let mut out: Vec<(String, u128)> = Vec::new();
        let mut i: usize = 0;
        while i < self.payout.len()
            invariant
                i <= self.payout@.len(),
                out@.len() == i,
                forall|j: int| 0 <= j < i ==> out@[j] == self.payout@[j],
            decreases self.payout@.len() - i,
        {
            out.push((self.payout[i].0.clone(), self.payout[i].1));
            i = i + 1;
        }
        let r = Payout { payout: out };
        assert(r@ =~= self@);
        r
    }
}

/// Entries of a map from account to amount, in order.
pub type Entries = Seq<(Seq<char>, u128)>;

impl View for Payout {
    type V = Entries;

    open spec fn view(&self) -> Entries {
        self.payout@.map_values(|e: (String, u128)| (e.0@, e.1))
    }
}

proof fn lemma_view_index(p: &Payout, i: int)
    requires
        0 <= i < p.payout@.len(),
    ensures
        p@.len() == p.payout@.len(),
        p@[i] == (p.payout@[i].0@, p.payout@[i].1),
{
}

/// The amount recorded for `account`, if any.
pub open spec fn amount_of(s: Entries, account: Seq<char>) -> Option<u128>
    decreases s.len(),
{
    if s.len() == 0 {
        None
    } else if s.last().0 == account {
        Some(s.last().1)
    } else {
        amount_of(s.drop_last(), account)
    }
}

/// Sum of all amounts.
pub open spec fn amount_total(s: Entries) -> int
    decreases s.len(),
{
    if s.len() == 0 {
        0
    } else {
        amount_total(s.drop_last()) + s.last().1
    }
}

pub open spec fn is_account_separator(c: u8) -> bool {
    c == 45 || c == 95 || c == 46  // '-', '_', '.'

}

pub open spec fn is_account_letter(c: u8) -> bool {
    (97 <= c && c <= 122) || (48 <= c && c <= 57)  // 'a'..='z', '0'..='9'

}

/// An account identifier, as bytes: 2 to 64 lower-case letters, digits and
/// the separators `-`, `_` and `.`, with no separator first, last or next
/// to another.
pub open spec fn valid_account_bytes(b: Seq<u8>) -> bool {
    &&& 2 <= b.len() <= 64
    &&& forall|i: int| 0 <= i < b.len() ==> is_account_letter(b[i]) || is_account_separator(b[i])
    &&& !is_account_separator(b[0])
    &&& !is_account_separator(b[b.len() - 1])
    &&& forall|i: int|
        0 <= i < b.len() - 1 ==> !(#[trigger] is_account_separator(b[i]) && is_account_separator(
            b[i + 1],
        ))
}

pub open spec fn valid_account(a: Seq<char>) -> bool {
    valid_account_bytes(encode_utf8(a))
}

/// No account appears twice.
pub open spec fn accounts_unique(s: Entries) -> bool {
    forall|i: int, j: int| 0 <= i < j < s.len() ==> #[trigger] s[i].0 != #[trigger] s[j].0
}

/// Why a royalty record may not be stored, checked in this order: its
/// length, the sum of its shares, its accounts, repeated accounts.
pub open spec fn royalty_error(s: Entries) -> Option<ContractError> {
    if s.len() > MAX_LEN_PAYOUT {
        Some(ContractError::RoyaltyTooLong)
    } else if amount_total(s) >= MAX_PAYOUT {
        Some(ContractError::RoyaltyTooLarge)
    } else if exists|i: int| 0 <= i < s.len() && !valid_account(#[trigger] s[i].0) {
        Some(ContractError::InvalidRoyaltyAccount)
    } else if !accounts_unique(s) {
        Some(ContractError::DuplicateRoyaltyAccount)
    } else {
        None
    }
}

/// A record that may be stored with a token.
pub open spec fn royalties_valid(s: Entries) -> bool {
    royalty_error(s).is_none()
}

/// The part `share / MAX_PAYOUT` of `balance`, rounded down.
pub open spec fn part_of(share: int, balance: int) -> int {
    share * balance / (MAX_PAYOUT as int)
}

/// Sum of the shares of the accounts other than `owner`.
pub open spec fn others_total(s: Entries, owner: Seq<char>) -> int
    decreases s.len(),
{
    if s.len() == 0 {
        0
    } else {
        others_total(s.drop_last(), owner) + if s.last().0 != owner {
            s.last().1 as int
        } else {
            0
        }
    }
}

/// Number of the accounts other than `owner`.
pub open spec fn others_count(s: Entries, owner: Seq<char>) -> int
    decreases s.len(),
{
    if s.len() == 0 {
        0
    } else {
        others_count(s.drop_last(), owner) + if s.last().0 != owner {
            1int
        } else {
            0
        }
    }
}

/// What each account other than `owner` receives of `balance`, in order.
pub open spec fn royalty_parts(s: Entries, owner: Seq<char>, balance: int) -> Entries
    decreases s.len(),
{
    if s.len() == 0 {
        seq![]
    } else if s.last().0 != owner {
        royalty_parts(s.drop_last(), owner, balance).push(
            (s.last().0, part_of(s.last().1 as int, balance) as u128),
        )
    } else {
        royalty_parts(s.drop_last(), owner, balance)
    }
}

/// The payout of a sale of `balance` for a token held by `owner` whose
/// royalty record is `s`: each other account gets its share, rounded down,
/// and the owner gets the share that is left, rounded down.
pub open spec fn payout_of(s: Entries, owner: Seq<char>, balance: int) -> Entries {
    royalty_parts(s, owner, balance).push(
        (owner, part_of(MAX_PAYOUT - others_total(s, owner), balance) as u128),
    )
}

/// Why no payout can be computed, checked in this order: the number of
/// entries for other accounts, then the sum of their shares.
pub open spec fn payout_error(s: Entries, owner: Seq<char>, max_len: int) -> Option<ContractError> {
    if others_count(s, owner) > max_len {
        Some(ContractError::PayoutTooLong)
    } else if others_total(s, owner) >= MAX_PAYOUT {
        Some(ContractError::RoyaltyTooLarge)
    } else {
        None
    }
}

/// Relies on near_sdk::env::is_valid_account_id, which checks the bytes of
/// an account identifier as `valid_account_bytes` states.
#[verifier::external_body]
fn is_valid_account_id(account: &String) -> (r: bool)
    ensures
        r == valid_account(account@),
{
    near_sdk::env::is_valid_account_id(account.as_bytes())
}

proof fn lemma_div_split(x: int, y: int, n: int)
    requires
        n > 0,
        y >= 0,
    ensures
        (n * x + y) / n == x + y / n,
{
    lemma_fundamental_div_mod(y, n);
    lemma_mod_bound(y, n);
    assert(n * x + y == n * (x + y / n) + y % n) by (nonlinear_arith)
        requires
            y == n * (y / n) + y % n,
    ;
    lemma_div_multiples_vanish_fancy(x + y / n, y % n, n);
}

proof fn lemma_floor_add(x: int, y: int, n: int)
    requires
        n > 0,
        x >= 0,
        y >= 0,
    ensures
        x / n + y / n <= (x + y) / n,
{
    lemma_fundamental_div_mod(x, n);
    lemma_mod_bound(x, n);
    assert(x + y == n * (x / n) + (x % n + y)) by (nonlinear_arith)
        requires
            x == n * (x / n) + x % n,
    ;
    lemma_div_split(x / n, x % n + y, n);
    lemma_div_is_ordered(y, x % n + y, n);
}

/// The part `share / MAX_PAYOUT` of `balance`, rounded down. A share of
/// at most the whole is computed without an intermediate product that
/// could exceed `u128`; a larger one needs the product to fit.
pub fn payout_part_from_balance(share: u128, balance: u128) -> (r: u128)
    requires
        share <= MAX_PAYOUT || share * balance <= u128::MAX,
    ensures
        r as int == part_of(share as int, balance as int),
        share <= MAX_PAYOUT ==> r <= balance,
{
    if share > MAX_PAYOUT {
        return share * balance / MAX_PAYOUT;
    }
    let q = balance / MAX_PAYOUT;
    let m = balance % MAX_PAYOUT;
    proof {
        let n = MAX_PAYOUT as int;
        lemma_fundamental_div_mod(balance as int, n);
        assert(share * balance == n * (share * q) + share * m) by (nonlinear_arith)
            requires
                balance == n * q + m,
        ;
        lemma_div_split(share * q, share * m, n);
        assert(share * m <= n * m) by (nonlinear_arith)
            requires
                share <= n,
                m >= 0,
        ;
        lemma_div_is_ordered(share * m, n * m, n);
        lemma_div_multiples_vanish(m as int, n);
        assert(share * q + m <= n * q + m) by (nonlinear_arith)
            requires
                share <= n,
                q >= 0,
        ;
        assert(share * q <= q * n) by (nonlinear_arith)
            requires
                share <= n,
                q >= 0,
        ;
        assert(share * m < n * n) by (nonlinear_arith)
            requires
                share <= n,
                m < n,
                m >= 0,
        ;
    }
    q * share + (m * share) / MAX_PAYOUT
}

/// Every share of an account other than `owner` divides `balance` into
/// whole units: no rounding happens.
pub open spec fn parts_exact(s: Entries, owner: Seq<char>, balance: int) -> bool {
    forall|i: int|
        0 <= i < s.len() && s[i].0 != owner ==> (#[trigger] s[i].1 as int * balance) % (
        MAX_PAYOUT as int) == 0
}

proof fn lemma_part_bounded(share: int, balance: int)
    requires
        0 <= share <= MAX_PAYOUT,
        balance >= 0,
    ensures
        0 <= part_of(share, balance) <= balance,
{
    let n = MAX_PAYOUT as int;
    assert(0 <= share * balance <= n * balance) by (nonlinear_arith)
        requires
            0 <= share <= n,
            balance >= 0,
    ;
    lemma_div_is_ordered(share * balance, n * balance, n);
    lemma_div_is_ordered(0, share * balance, n);
    lemma_div_multiples_vanish(balance, n);
}

proof fn lemma_others_total_prefix(s: Entries, owner: Seq<char>, i: int)
    requires
        0 <= i <= s.len(),
    ensures
        0 <= others_total(s.subrange(0, i), owner) <= others_total(s, owner),
    decreases s.len(),
{
    if i < s.len() {
        assert(s.drop_last().subrange(0, i) =~= s.subrange(0, i));
        lemma_others_total_prefix(s.drop_last(), owner, i);
    } else {
        assert(s.subrange(0, i) =~= s);
        lemma_others_total_nonneg(s, owner);
    }
}

proof fn lemma_others_total_nonneg(s: Entries, owner: Seq<char>)
    ensures
        others_total(s, owner) >= 0,
    decreases s.len(),
{
    if s.len() > 0 {
        lemma_others_total_nonneg(s.drop_last(), owner);
    }
}

/// The royalty parts add up to at most the part of the summed shares, and
/// to exactly that part when no rounding happens.
proof fn lemma_parts_total(s: Entries, owner: Seq<char>, balance: int)
    requires
        others_total(s, owner) <= MAX_PAYOUT,
        0 <= balance <= u128::MAX,
    ensures
        amount_total(royalty_parts(s, owner, balance)) <= part_of(others_total(s, owner), balance),
        parts_exact(s, owner, balance) ==> amount_total(royalty_parts(s, owner, balance))
            == part_of(others_total(s, owner), balance) && (others_total(s, owner) * balance) % (
        MAX_PAYOUT as int) == 0,
    decreases s.len(),
{
    let n = MAX_PAYOUT as int;
    if s.len() > 0 {
        let d = s.drop_last();
        let t = others_total(d, owner);
        lemma_others_total_nonneg(d, owner);
        if parts_exact(s, owner, balance) {
            assert forall|i: int| 0 <= i < d.len() && d[i].0 != owner implies (#[trigger] d[i].1 as int
                * balance) % n == 0 by {
                assert(d[i] == s[i]);
            }
        }
        lemma_parts_total(d, owner, balance);
        if s.last().0 != owner {
            let r = s.last().1 as int;
            assert(others_total(s, owner) == t + r);
            assert(royalty_parts(s, owner, balance).drop_last() =~= royalty_parts(d, owner, balance));
            assert(royalty_parts(s, owner, balance).last().1 == part_of(r, balance) as u128);
            lemma_part_bounded(r, balance);
            assert((t + r) * balance == t * balance + r * balance) by (nonlinear_arith);
            assert(t * balance >= 0 && r * balance >= 0) by (nonlinear_arith)
                requires
                    t >= 0,
                    r >= 0,
                    balance >= 0,
            ;
            lemma_floor_add(t * balance, r * balance, n);
            assert(amount_total(royalty_parts(s, owner, balance)) == amount_total(
                royalty_parts(d, owner, balance),
            ) + part_of(r, balance));
            if parts_exact(s, owner, balance) {
                assert((r * balance) % n == 0) by {
                    assert(s[s.len() - 1] == s.last());
                }
                lemma_exact_add(t * balance, r * balance, n);
            }
        } else {
            assert(others_total(s, owner) == t);
        }
    }
}

proof fn lemma_exact_add(x: int, y: int, n: int)
    requires
        n > 0,
        x % n == 0,
        y % n == 0,
    ensures
        (x + y) / n == x / n + y / n,
        (x + y) % n == 0,
{
    lemma_fundamental_div_mod(x, n);
    lemma_fundamental_div_mod(y, n);
    assert(x + y == n * (x / n + y / n)) by (nonlinear_arith)
        requires
            x == n * (x / n),
            y == n * (y / n),
    ;
    lemma_div_split(x / n + y / n, 0, n);
    lemma_fundamental_div_mod(x + y, n);
    lemma_mod_bound(x + y, n);
}

/// A payout never hands out more than the sale's balance, and when no share
/// needs rounding the owner receives exactly what the royalties leave.
pub proof fn lemma_payout_conservation(s: Entries, owner: Seq<char>, balance: u128)
    requires
        others_total(s, owner) < MAX_PAYOUT,
    ensures
        amount_total(payout_of(s, owner, balance as int)) <= balance,
        parts_exact(s, owner, balance as int) ==> payout_of(s, owner, balance as int).last().1
            == balance - amount_total(royalty_parts(s, owner, balance as int)),
{
    let n = MAX_PAYOUT as int;
    let b = balance as int;
    let t = others_total(s, owner);
    lemma_others_total_nonneg(s, owner);
    lemma_parts_total(s, owner, b);
    lemma_part_bounded(n - t, b);
    lemma_part_bounded(t, b);
    let parts = royalty_parts(s, owner, b);
    let all = payout_of(s, owner, b);
    assert(all.drop_last() =~= parts);
    assert((n - t) * b == n * b - t * b) by (nonlinear_arith);
    assert(t * b >= 0 && n * b - t * b >= 0) by (nonlinear_arith)
        requires
            0 <= t <= n,
            b >= 0,
    ;
    lemma_floor_add(t * b, n * b - t * b, n);
    lemma_div_multiples_vanish(b, n);
    if parts_exact(s, owner, b) {
        lemma_fundamental_div_mod(t * b, n);
        assert(n * b - t * b == n * (b - t * b / n)) by (nonlinear_arith)
            requires
                t * b == n * (t * b / n),
        ;
        lemma_div_split(b - t * b / n, 0, n);
    }
}

/// Checks a royalty record before it is stored.
pub fn validate_royalties(royalties: &Payout) -> (r: Result<(), ContractError>)
    ensures
        r == match royalty_error(royalties@) {
            None => Ok(()),
            Some(e) => Err(e),
        },
{
    let ghost s = royalties@;
    if royalties.payout.len() > MAX_LEN_PAYOUT {
        return Err(ContractError::RoyaltyTooLong);
    }
    let mut total: u128 = 0;
    let mut i: usize = 0;
    while i < royalties.payout.len()
        invariant
            s == royalties@,
            royalties.payout@.len() == s.len() <= MAX_LEN_PAYOUT,
            i <= s.len(),
            total == amount_total(s.subrange(0, i as int)),
            total < MAX_PAYOUT,
        decreases s.len() - i,
    {
        assert(s.subrange(0, i + 1).drop_last() =~= s.subrange(0, i as int));
        assert(s.subrange(0, i + 1).last() == s[i as int]);
        proof {
            lemma_view_index(royalties, i as int);
        }
        let share = royalties.payout[i].1;
        if share >= MAX_PAYOUT - total {
            proof {
                lemma_amount_total_prefix(s, i + 1);
            }
            return Err(ContractError::RoyaltyTooLarge);
        }
        total = total + share;
        i = i + 1;
    }
    assert(s.subrange(0, s.len() as int) =~= s);
    let mut j: usize = 0;
    while j < royalties.payout.len()
        invariant
            s == royalties@,
            royalties.payout@.len() == s.len(),
            j <= s.len(),
            s.len() <= MAX_LEN_PAYOUT,
            amount_total(s) < MAX_PAYOUT,
            forall|k: int| 0 <= k < j ==> valid_account(#[trigger] s[k].0),
        decreases s.len() - j,
    {
        proof {
            lemma_view_index(royalties, j as int);
        }
        if !is_valid_account_id(&royalties.payout[j].0) {
            assert(!valid_account(s[j as int].0));
            return Err(ContractError::InvalidRoyaltyAccount);
        }
        j = j + 1;
    }
    let mut a: usize = 0;
    while a < royalties.payout.len()
        invariant
            s == royalties@,
            royalties.payout@.len() == s.len(),
            a <= s.len(),
            s.len() <= MAX_LEN_PAYOUT,
            amount_total(s) < MAX_PAYOUT,
            forall|k: int| 0 <= k < s.len() ==> valid_account(#[trigger] s[k].0),
            forall|x: int, y: int| 0 <= x < a && x < y < s.len() ==> #[trigger] s[x].0 != #[trigger] s[y].0,
        decreases s.len() - a,
    {
        let mut b: usize = a + 1;
        while b < royalties.payout.len()
            invariant
                s == royalties@,
                royalties.payout@.len() == s.len(),
                a < s.len(),
                a + 1 <= b <= s.len(),
                s.len() <= MAX_LEN_PAYOUT,
                amount_total(s) < MAX_PAYOUT,
                forall|k: int| 0 <= k < s.len() ==> valid_account(#[trigger] s[k].0),
                forall|y: int| a < y < b ==> s[a as int].0 != #[trigger] s[y].0,
            decreases s.len() - b,
        {
            proof {
                lemma_view_index(royalties, a as int);
                lemma_view_index(royalties, b as int);
            }
            if royalties.payout[a].0 == royalties.payout[b].0 {
                assert(s[a as int].0 == s[b as int].0);
                assert(!accounts_unique(s));
                return Err(ContractError::DuplicateRoyaltyAccount);
            }
            b = b + 1;
        }
        a = a + 1;
    }
    assert(accounts_unique(s));
    assert(!(exists|i: int| 0 <= i < s.len() && !valid_account(#[trigger] s[i].0)));
    Ok(())
}

proof fn lemma_amount_total_prefix(s: Entries, i: int)
    requires
        0 <= i <= s.len(),
    ensures
        amount_total(s.subrange(0, i)) <= amount_total(s),
    decreases s.len(),
{
    if i < s.len() {
        assert(s.drop_last().subrange(0, i) =~= s.subrange(0, i));
        lemma_amount_total_prefix(s.drop_last(), i);
    } else {
        assert(s.subrange(0, i) =~= s);
    }
}

/// The payout of a sale of `balance` for a token held by `owner_id` whose
/// royalty record is `royalties`.
pub fn compute_payout(royalties: &Payout, owner_id: &String, balance: u128, max_len_payout: u32) -> (r:
    Result<Payout, ContractError>)
    ensures
        match payout_error(royalties@, owner_id@, max_len_payout as int) {
            Some(e) => r == Err::<Payout, ContractError>(e),
            None => r is Ok && r->Ok_0@ == payout_of(royalties@, owner_id@, balance as int),
        },
{
    let ghost s = royalties@;
    let ghost owner = owner_id@;
    let mut count: usize = 0;
    let mut total: u128 = 0;
    let mut over = false;
    let mut i: usize = 0;
    while i < royalties.payout.len()
        invariant
            s == royalties@,
            owner == owner_id@,
            royalties.payout@.len() == s.len(),
            i <= s.len(),
            count as int == others_count(s.subrange(0, i as int), owner),
            count <= i,
            over == (others_total(s.subrange(0, i as int), owner) >= MAX_PAYOUT),
            !over ==> total == others_total(s.subrange(0, i as int), owner),
        decreases s.len() - i,
    {
        assert(s.subrange(0, i + 1).drop_last() =~= s.subrange(0, i as int));
        assert(s.subrange(0, i + 1).last() == s[i as int]);
        proof {
            lemma_view_index(royalties, i as int);
        }
        if royalties.payout[i].0 != *owner_id {
            count = count + 1;
            if !over {
                if royalties.payout[i].1 >= MAX_PAYOUT - total {
                    over = true;
                } else {
                    total = total + royalties.payout[i].1;
                }
            }
        }
        i = i + 1;
    }
    assert(s.subrange(0, s.len() as int) =~= s);
    if count > max_len_payout as usize {
        return Err(ContractError::PayoutTooLong);
    }
    if over {
        return Err(ContractError::RoyaltyTooLarge);
    }
    let mut parts: Vec<(String, u128)> = Vec::new();
    let mut j: usize = 0;
    while j < royalties.payout.len()
        invariant
            s == royalties@,
            owner == owner_id@,
            royalties.payout@.len() == s.len(),
            j <= s.len(),
            total == others_total(s, owner),
            total < MAX_PAYOUT,
            parts@.map_values(|e: (String, u128)| (e.0@, e.1)) == royalty_parts(
                s.subrange(0, j as int),
                owner,
                balance as int,
            ),
        decreases s.len() - j,
    {
        assert(s.subrange(0, j + 1).drop_last() =~= s.subrange(0, j as int));
        assert(s.subrange(0, j + 1).last() == s[j as int]);
        proof {
            lemma_view_index(royalties, j as int);
        }
        proof {
            lemma_others_total_prefix(s, owner, j + 1);
            lemma_others_total_nonneg(s.subrange(0, j as int), owner);
        }
        if royalties.payout[j].0 != *owner_id {
            let part = payout_part_from_balance(royalties.payout[j].1, balance);
            let ghost before = parts@;
            parts.push((royalties.payout[j].0.clone(), part));
            assert(parts@.map_values(|e: (String, u128)| (e.0@, e.1)) =~= before.map_values(
                |e: (String, u128)| (e.0@, e.1),
            ).push((s[j as int].0, part)));
        }
        j = j + 1;
    }
    assert(s.subrange(0, s.len() as int) =~= s);
    let owner_part = payout_part_from_balance(MAX_PAYOUT - total, balance);
    let ghost before = parts@;
    parts.push((owner_id.clone(), owner_part));
    assert(parts@.map_values(|e: (String, u128)| (e.0@, e.1)) =~= before.map_values(
        |e: (String, u128)| (e.0@, e.1),
    ).push((owner, owner_part)));
    Ok(Payout { payout: parts })
}

} // verus!
