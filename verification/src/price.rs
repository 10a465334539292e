//! The market-order price calculator.
//!
//! Given one side of an order book, ordered best-to-worst, and a target
//! notional amount, the calculator simulates sequential consumption of
//! liquidity from the best level and prices the order at the last (worst)
//! level it touches. It is a conservative fill-price estimate, deliberately
//! not a volume-weighted average.

use crate::decimal::Dec;
use crate::error::ClobError;
use vstd::prelude::*;
use vstd::string::StringExecFns;

verus! {

/// One price level of an order book: the price and the quantity available at
/// that price. An immutable snapshot value with no identity beyond its
/// position in the sequence.
#[derive(Clone, Copy, PartialEq, Eq, Structural, Debug)]
pub struct OrderLevel {
    pub price: Dec,
    pub size: Dec,
}

impl OrderLevel {
    /// Prices and sizes of a book level are non-negative, well-formed
    /// decimals.
    pub open spec fn wf(self) -> bool {
        &&& self.price.wf()
        &&& self.size.wf()
        &&& self.price.units >= 0
        &&& self.size.units >= 0
    }
}

/// Every level of the sequence is well formed.
pub open spec fn levels_wf(s: Seq<OrderLevel>) -> bool {
    forall|i: int| 0 <= i < s.len() ==> (#[trigger] s[i]).wf()
}

/// The notional of one level, `size * price`, in 10^-18 units (the product of
/// two 10^-9 unit counts).
pub open spec fn level_notional(l: OrderLevel) -> int {
    l.price.units * l.size.units
}

/// Sum of the notionals of the first `n` levels, in 10^-18 units.
pub open spec fn prefix_notional(s: Seq<OrderLevel>, n: int) -> int
    decreases n,
{
    if n <= 0 {
        0
    } else {
        prefix_notional(s, n - 1) + level_notional(s[n - 1])
    }
}

/// Total notional available in the whole sequence, in 10^-18 units.
pub open spec fn total_notional(s: Seq<OrderLevel>) -> int {
    prefix_notional(s, s.len() as int)
}

/// The target amount rescaled to the 10^-18 units that notional sums use.
pub open spec fn spec_target(amount: Dec) -> int {
    amount.units * 1_000_000_000
}

/// `i` is the index of the level that completes the fill: the cumulative
/// notional through level `i` first reaches or exceeds `target` there.
pub open spec fn is_fill_index(s: Seq<OrderLevel>, target: int, i: int) -> bool {
    &&& 0 <= i < s.len()
    &&& prefix_notional(s, i + 1) >= target
    &&& forall|j: int| 0 <= j < i ==> #[trigger] prefix_notional(s, j + 1) < target
}

/// The diagnostic message of an insufficient-liquidity failure; it carries
/// the requested amount.
pub open spec fn insufficient_liquidity_message(amount: Dec) -> Seq<char> {
    "Not enough liquidity to create market order with amount "@
        + crate::decimal::spec_dec_str(amount.units as int)
}

/// Notionals of well-formed levels are non-negative.
pub proof fn lemma_level_notional_nonneg(l: OrderLevel)
    requires
        l.wf(),
    ensures
        level_notional(l) >= 0,
{
    assert(l.price.units * l.size.units >= 0) by (nonlinear_arith)
        requires
            l.price.units >= 0,
            l.size.units >= 0,
    ;
}

/// Prefix sums of well-formed levels are non-negative.
pub proof fn lemma_prefix_notional_nonneg(s: Seq<OrderLevel>, n: int)
    requires
        levels_wf(s),
        n <= s.len(),
    ensures
        prefix_notional(s, n) >= 0,
    decreases n,
{
    if n > 0 {
        lemma_prefix_notional_nonneg(s, n - 1);
        lemma_level_notional_nonneg(s[n - 1]);
    }
}

/// Prefix sums of well-formed levels grow monotonically.
pub proof fn lemma_prefix_notional_monotone(s: Seq<OrderLevel>, m: int, n: int)
    requires
        levels_wf(s),
        0 <= m <= n <= s.len(),
    ensures
        prefix_notional(s, m) <= prefix_notional(s, n),
    decreases n,
{
    if n > m {
        lemma_prefix_notional_monotone(s, m, n - 1);
        lemma_level_notional_nonneg(s[n - 1]);
    }
}

/// A prefix sum reads only the levels below its bound: two sequences that
/// agree there have the same prefix notional.
pub proof fn lemma_prefix_notional_agree(s1: Seq<OrderLevel>, s2: Seq<OrderLevel>, n: int)
    requires
        0 <= n <= s1.len(),
        n <= s2.len(),
        forall|j: int| 0 <= j < n ==> s1[j] == s2[j],
    ensures
        prefix_notional(s1, n) == prefix_notional(s2, n),
    decreases n,
{
    if n > 0 {
        lemma_prefix_notional_agree(s1, s2, n - 1);
    }
}

/// A fill decided at level `i` depends only on levels `0..=i`: any sequence
/// that agrees with `s1` up to `i` fills at the same index, whatever stands
/// beyond it.
pub proof fn lemma_fill_index_ignores_tail(
    s1: Seq<OrderLevel>,
    s2: Seq<OrderLevel>,
    target: int,
    i: int,
)
    requires
        is_fill_index(s1, target, i),
        i < s2.len(),
        forall|j: int| 0 <= j <= i ==> s1[j] == s2[j],
    ensures
        is_fill_index(s2, target, i),
        s2[i].price == s1[i].price,
{
    lemma_prefix_notional_agree(s1, s2, i + 1);
    assert forall|j: int| 0 <= j < i implies #[trigger] prefix_notional(s2, j + 1) < target by {
        lemma_prefix_notional_agree(s1, s2, j + 1);
    }
}

/// At most one level completes the fill.
pub proof fn lemma_fill_index_unique(s: Seq<OrderLevel>, target: int, i: int, j: int)
    requires
        is_fill_index(s, target, i),
        is_fill_index(s, target, j),
    ensures
        i == j,
{
}

/// When the total notional of the book falls short of the target, no prefix
/// reaches it, so no level completes the fill.
pub proof fn lemma_total_below_target_no_fill(s: Seq<OrderLevel>, target: int)
    requires
        levels_wf(s),
        total_notional(s) < target,
    ensures
        forall|i: int| 0 <= i < s.len() ==> #[trigger] prefix_notional(s, i + 1) < target,
        forall|i: int| !is_fill_index(s, target, i),
{
    assert forall|i: int| 0 <= i < s.len() implies #[trigger] prefix_notional(s, i + 1) < target by {
        lemma_prefix_notional_monotone(s, i + 1, s.len() as int);
    }
}

/// An empty book never completes a fill, whatever the target: the calculator
/// must answer it with an insufficient-liquidity error.
pub proof fn lemma_empty_book_has_no_fill(target: int)
    ensures
        forall|i: int| !is_fill_index(Seq::<OrderLevel>::empty(), target, i),
{
}

/// Build the insufficient-liquidity error, whose message carries the
/// requested amount.
fn insufficient_liquidity_error(amount: Dec) -> (e: ClobError)
    requires
        amount.wf(),
    ensures
        (e matches ClobError::InvalidOrder(m) && m@ == insufficient_liquidity_message(amount)),
{
    let mut m = String::from_str("Not enough liquidity to create market order with amount ");
    let rendered = amount.to_display_string();
    m.append(rendered.as_str());
    ClobError::InvalidOrder(m)
}

/// Calculate the price for a market order from order-book depth.
///
/// Walks the levels from best to worst, accumulating each level's notional
/// (`size * price`), and returns the price of the first level at which the
/// accumulated notional reaches or exceeds `amount_to_match`; levels beyond
/// that one are never examined. When the whole book falls short, it returns
/// an insufficient-liquidity error carrying the requested amount.
pub fn calculate_market_price(positions: &Vec<OrderLevel>, amount_to_match: Dec) -> (r: Result<
    Dec,
    ClobError,
>)
    requires
        levels_wf(positions@),
        amount_to_match.wf(),
        total_notional(positions@) <= i128::MAX,
    ensures
        match r {
            Ok(p) => exists|i: int|
                #[trigger] is_fill_index(positions@, spec_target(amount_to_match), i) && p
                    == positions@[i].price,
            Err(e) => {
                &&& forall|i: int|
                    0 <= i < positions@.len() ==> #[trigger] prefix_notional(positions@, i + 1)
                        < spec_target(amount_to_match)
                &&& (e matches ClobError::InvalidOrder(m) && m@ == insufficient_liquidity_message(
                    amount_to_match,
                ))
            },
        },
{
    let target: i128 = amount_to_match.units * 1_000_000_000;
    let mut sum: i128 = 0;
    let mut i: usize = 0;
    while i < positions.len()
        invariant
            levels_wf(positions@),
            amount_to_match.wf(),
            total_notional(positions@) <= i128::MAX,
            0 <= i <= positions@.len(),
            target == spec_target(amount_to_match),
            sum == prefix_notional(positions@, i as int),
            forall|j: int| 0 <= j < i ==> #[trigger] prefix_notional(positions@, j + 1) < target,
        decreases positions@.len() - i,
    {
        proof {
            lemma_prefix_notional_nonneg(positions@, i as int);
            lemma_prefix_notional_monotone(positions@, i + 1, positions@.len() as int);
            assert(prefix_notional(positions@, i + 1) == prefix_notional(positions@, i as int)
                + level_notional(positions@[i as int]));
            lemma_level_notional_nonneg(positions@[i as int]);
        }
        let level = positions[i];
        sum = sum + level.price.units * level.size.units;
        if sum >= target {
            proof {
                assert(is_fill_index(positions@, spec_target(amount_to_match), i as int));
            }
            return Ok(level.price);
        }
        i = i + 1;
    }
    Err(insufficient_liquidity_error(amount_to_match))
}


} // verus!
