use vstd::prelude::*;

verus! {

/// The views of the items of a sequence, in order.
pub open spec fn view_seq<T: View>(s: Seq<T>) -> Seq<T::V> {
    Seq::new(s.len(), |i: int| s[i]@)
}

/// An amount of one currency.
#[derive(Debug, PartialEq, Eq)]
pub struct Coin {
    pub denom: String,
    pub amount: u128,
}

pub struct CoinView {
    pub denom: Seq<char>,
    pub amount: nat,
}

impl View for Coin {
    type V = CoinView;

    open spec fn view(&self) -> CoinView {
        CoinView { denom: self.denom@, amount: self.amount as nat }
    }
}

impl Clone for Coin {
    fn clone(&self) -> (r: Self)
        ensures
            r@ == self@,
    {
        Coin { denom: self.denom.clone(), amount: self.amount }
    }
}

/// A transfer of coins to an address.
#[derive(Debug, PartialEq, Eq)]
pub struct Payment {
    pub to_address: String,
    pub amount: Vec<Coin>,
}

pub struct PaymentView {
    pub to_address: Seq<char>,
    pub amount: Seq<CoinView>,
}

impl View for Payment {
    type V = PaymentView;

    open spec fn view(&self) -> PaymentView {
        PaymentView { to_address: self.to_address@, amount: view_seq(self.amount@) }
    }
}

/// A copy of a list of coins.
pub fn clone_coins(coins: &Vec<Coin>) -> (r: Vec<Coin>)
    ensures
        view_seq(r@) == view_seq(coins@),
{
    let mut r: Vec<Coin> = Vec::new();
    let mut i: usize = 0;
    while i < coins.len()
        invariant
            i <= coins.len(),
            r.len() == i,
            forall|j: int| 0 <= j < i ==> r@[j]@ == coins@[j]@,
        decreases coins.len() - i,
    {
        r.push(coins[i].clone());
        i += 1;
    }
    assert(view_seq(r@) =~= view_seq(coins@));
    r
}

impl Clone for Payment {
    fn clone(&self) -> (r: Self)
        ensures
            r@ == self@,
    {
        Payment { to_address: self.to_address.clone(), amount: clone_coins(&self.amount) }
    }
}

/// A copy of a list of payments.
pub fn clone_payments(payments: &Vec<Payment>) -> (r: Vec<Payment>)
    ensures
        view_seq(r@) == view_seq(payments@),
{
    let mut r: Vec<Payment> = Vec::new();
    let mut i: usize = 0;
    while i < payments.len()
        invariant
            i <= payments.len(),
            r.len() == i,
            forall|j: int| 0 <= j < i ==> r@[j]@ == payments@[j]@,
        decreases payments.len() - i,
    {
        r.push(payments[i].clone());
        i += 1;
    }
    assert(view_seq(r@) =~= view_seq(payments@));
    r
}

/// Who called, and the coins that came with the call.
#[derive(Debug, PartialEq, Eq)]
pub struct MessageInfo {
    pub sender: String,
    pub funds: Vec<Coin>,
}

pub struct MessageInfoView {
    pub sender: Seq<char>,
    pub funds: Seq<CoinView>,
}

impl View for MessageInfo {
    type V = MessageInfoView;

    open spec fn view(&self) -> MessageInfoView {
        MessageInfoView { sender: self.sender@, funds: view_seq(self.funds@) }
    }
}

/// The block in which a call runs: its height and its time in nanoseconds.
#[derive(Clone, Copy, Debug, PartialEq, Eq)]
pub struct BlockInfo {
    pub height: u64,
    pub time: u64,
}

/// Whether `i` is the place of the first coin of `coins` in the currency `denom`.
pub open spec fn is_first_of_denom(coins: Seq<CoinView>, denom: Seq<char>, i: int) -> bool {
    &&& 0 <= i < coins.len()
    &&& coins[i].denom == denom
    &&& forall|j: int| 0 <= j < i ==> (#[trigger] coins[j]).denom != denom
}

/// Whether the first coin of `coins` in the currency of `required` holds at
/// least the required amount. A list without such a coin holds nothing of it.
pub open spec fn holds_coins(coins: Seq<CoinView>, required: CoinView) -> bool {
    exists|i: int|
        #![trigger coins[i]]
        is_first_of_denom(coins, required.denom, i) && coins[i].amount >= required.amount
}

/// `coins` after `required` was taken from the coin at `i`.
pub open spec fn coins_less(coins: Seq<CoinView>, required: CoinView, i: int) -> Seq<CoinView> {
    coins.update(
        i,
        CoinView { denom: coins[i].denom, amount: (coins[i].amount - required.amount) as nat },
    )
}

/// The sum of the first coin of each payment.
pub open spec fn payments_total(payments: Seq<PaymentView>) -> nat
    decreases payments.len(),
{
    if payments.len() == 0 {
        0
    } else {
        payments_total(payments.drop_last()) + payments.last().amount[0].amount
    }
}

/// Whether every payment carries at least one coin.
pub open spec fn payments_carry_coins(payments: Seq<PaymentView>) -> bool {
    forall|i: int| 0 <= i < payments.len() ==> (#[trigger] payments[i]).amount.len() > 0
}

} // verus!
