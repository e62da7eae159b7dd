//! Pending value-transfer records, their validation, and the total order
//! (sender, recipient, amount) that keeps the pool and every block's
//! transaction set deterministic regardless of insertion order.

use vstd::prelude::*;
use vstd::string::StrSliceExecFns;

verus! {

/// A value transfer awaiting inclusion in a block.
#[derive(Debug)]
pub struct Transaction {
    pub sender: String,
    pub recipient: String,
    pub amount: u64,
}

/// The mathematical value of a [`Transaction`].
pub ghost struct TxView {
    pub sender: Seq<char>,
    pub recipient: Seq<char>,
    pub amount: u64,
}

impl View for Transaction {
    type V = TxView;

    open spec fn view(&self) -> TxView {
        TxView { sender: self.sender@, recipient: self.recipient@, amount: self.amount }
    }
}

impl DeepView for Transaction {
    type V = TxView;

    open spec fn deep_view(&self) -> TxView {
        self.view()
    }
}

/// A transaction is well-formed when both parties are named; any `u64`
/// amount is a valid (non-negative) amount.
pub open spec fn valid_tx(t: TxView) -> bool {
    t.sender.len() > 0 && t.recipient.len() > 0
}

/// Strict lexicographic order on character sequences, by scalar value.
pub open spec fn chars_lt(a: Seq<char>, b: Seq<char>) -> bool
    decreases a.len(),
{
    if b.len() == 0 {
        false
    } else if a.len() == 0 {
        true
    } else if (a[0] as u32) < (b[0] as u32) {
        true
    } else if (a[0] as u32) == (b[0] as u32) {
        chars_lt(a.drop_first(), b.drop_first())
    } else {
        false
    }
}

/// Strict total order on transactions: lexicographic over
/// (sender, recipient, amount).
pub open spec fn tx_lt(a: TxView, b: TxView) -> bool {
    ||| chars_lt(a.sender, b.sender)
    ||| (a.sender == b.sender && chars_lt(a.recipient, b.recipient))
    ||| (a.sender == b.sender && a.recipient == b.recipient && a.amount < b.amount)
}

/// A pool or block transaction sequence is canonical when it is strictly
/// ascending in `tx_lt`; strictness also rules out duplicates.
pub open spec fn tx_sorted(s: Seq<TxView>) -> bool {
    forall|i: int, j: int| 0 <= i < j < s.len() ==> tx_lt(s[i], s[j])
}

/// `chars_lt` is a strict total order: of `a < b`, `a == b`, `b < a`
/// exactly one holds.
pub proof fn lemma_chars_lt_trichotomy(a: Seq<char>, b: Seq<char>)
    ensures
        chars_lt(a, b) || a == b || chars_lt(b, a),
        chars_lt(a, b) ==> a != b && !chars_lt(b, a),
        a == b ==> !chars_lt(a, b),
    decreases a.len(),
{
    if b.len() == 0 || a.len() == 0 {
        if a.len() == 0 && b.len() == 0 {
            assert(a =~= b);
        }
    } else {
        let x = a[0] as u32;
        let y = b[0] as u32;
        if x == y {
            vstd::utf8::char_u32_cast(a[0], x);
            vstd::utf8::char_u32_cast(b[0], y);
            assert(a[0] == b[0]);
            lemma_chars_lt_trichotomy(a.drop_first(), b.drop_first());
            if a.drop_first() == b.drop_first() {
                assert(a.len() == b.len());
                assert forall|i: int| 0 <= i < a.len() implies a[i] == b[i] by {
                    if i >= 1 {
                        assert(a[i] == a.drop_first()[i - 1]);
                        assert(b[i] == b.drop_first()[i - 1]);
                        assert(a.drop_first()[i - 1] == b.drop_first()[i - 1]);
                    }
                }
                assert(a =~= b);
            }
            if a == b {
                assert(a.drop_first() == b.drop_first());
            }
        } else {
            assert(a[0] != b[0]);
            if a == b {
                assert(a[0] == b[0]);
            }
        }
    }
}

/// `chars_lt` is transitive.
pub proof fn lemma_chars_lt_trans(a: Seq<char>, b: Seq<char>, c: Seq<char>)
    requires
        chars_lt(a, b),
        chars_lt(b, c),
    ensures
        chars_lt(a, c),
    decreases a.len(),
{
    if a.len() == 0 {
    } else {
        let x = a[0] as u32;
        let y = b[0] as u32;
        let z = c[0] as u32;
        if x == y && y == z {
            lemma_chars_lt_trans(a.drop_first(), b.drop_first(), c.drop_first());
        }
    }
}

/// `tx_lt` is a strict total order on transaction values.
pub proof fn lemma_tx_lt_trichotomy(a: TxView, b: TxView)
    ensures
        tx_lt(a, b) || a == b || tx_lt(b, a),
        tx_lt(a, b) ==> a != b && !tx_lt(b, a),
{
    lemma_chars_lt_trichotomy(a.sender, b.sender);
    lemma_chars_lt_trichotomy(a.recipient, b.recipient);
}

/// `tx_lt` is transitive.
pub proof fn lemma_tx_lt_trans(a: TxView, b: TxView, c: TxView)
    ensures
        tx_lt(a, b) && tx_lt(b, c) ==> tx_lt(a, c),
{
    lemma_chars_lt_trichotomy(a.sender, b.sender);
    lemma_chars_lt_trichotomy(b.sender, c.sender);
    lemma_chars_lt_trichotomy(a.recipient, b.recipient);
    lemma_chars_lt_trichotomy(b.recipient, c.recipient);
    if tx_lt(a, b) && tx_lt(b, c) {
        if chars_lt(a.sender, b.sender) && chars_lt(b.sender, c.sender) {
            lemma_chars_lt_trans(a.sender, b.sender, c.sender);
        }
        if a.sender == b.sender && b.sender == c.sender && chars_lt(a.recipient, b.recipient)
            && chars_lt(b.recipient, c.recipient) {
            lemma_chars_lt_trans(a.recipient, b.recipient, c.recipient);
        }
    }
}

/// Outcome of a three-way comparison.
#[derive(PartialEq, Eq, Structural)]
pub enum Rel {
    Less,
    Equal,
    Greater,
}

/// Dropping an equal prefix does not change how two character sequences
/// compare.
proof fn lemma_chars_lt_skip(a: Seq<char>, b: Seq<char>, i: int)
    requires
        0 <= i <= a.len(),
        i <= b.len(),
        forall|j: int| 0 <= j < i ==> a[j] == b[j],
    ensures
        chars_lt(a, b) == chars_lt(a.skip(i), b.skip(i)),
    decreases i,
{
    if i == 0 {
        assert(a.skip(0) =~= a);
        assert(b.skip(0) =~= b);
    } else {
        assert(a[0] == b[0]);
        assert(a.drop_first() =~= a.skip(1));
        assert(b.drop_first() =~= b.skip(1));
        assert(a.drop_first().skip(i - 1) =~= a.skip(i));
        assert(b.drop_first().skip(i - 1) =~= b.skip(i));
        assert(forall|j: int|
            0 <= j < i - 1 ==> #[trigger] a.drop_first()[j] == b.drop_first()[j]);
        lemma_chars_lt_skip(a.drop_first(), b.drop_first(), i - 1);
        assert(chars_lt(a, b) == chars_lt(a.drop_first(), b.drop_first()));
    }
}

/// Three-way lexicographic comparison of two strings by scalar value.
pub fn str_compare(a: &str, b: &str) -> (r: Rel)
    ensures
        (r == Rel::Less) == chars_lt(a@, b@),
        (r == Rel::Equal) == (a@ == b@),
        (r == Rel::Greater) == chars_lt(b@, a@),
{
    proof {
        lemma_chars_lt_trichotomy(a@, b@);
    }
    let a_len = a.unicode_len();
    let b_len = b.unicode_len();
    let mut i: usize = 0;
    while i < a_len && i < b_len
        invariant
            i <= a_len,
            i <= b_len,
            a_len == a@.len(),
            b_len == b@.len(),
            forall|j: int| 0 <= j < i ==> a@[j] == b@[j],
        decreases a_len - i,
    {
        let ca = a.get_char(i);
        let cb = b.get_char(i);
        if (ca as u32) < (cb as u32) {
            proof {
                lemma_chars_lt_skip(a@, b@, i as int);
                assert(a@.skip(i as int)[0] == ca);
                assert(b@.skip(i as int)[0] == cb);
                lemma_chars_lt_trichotomy(a@, b@);
            }
            return Rel::Less;
        }
        if (cb as u32) < (ca as u32) {
            proof {
                lemma_chars_lt_skip(b@, a@, i as int);
                assert(b@.skip(i as int)[0] == cb);
                assert(a@.skip(i as int)[0] == ca);
                lemma_chars_lt_trichotomy(a@, b@);
            }
            return Rel::Greater;
        }
        proof {
            vstd::utf8::char_u32_cast(ca, ca as u32);
            vstd::utf8::char_u32_cast(cb, cb as u32);
            assert(a@[i as int] == b@[i as int]);
        }
        i = i + 1;
    }
    if a_len < b_len {
        proof {
            lemma_chars_lt_skip(a@, b@, i as int);
            lemma_chars_lt_trichotomy(a@, b@);
        }
        Rel::Less
    } else if b_len < a_len {
        proof {
            lemma_chars_lt_skip(b@, a@, i as int);
            lemma_chars_lt_trichotomy(a@, b@);
        }
        Rel::Greater
    } else {
        proof {
            assert(a@ =~= b@);
        }
        Rel::Equal
    }
}

impl Transaction {
    /// A fresh transaction with the same value.
    pub fn duplicate(&self) -> (t: Transaction)
        ensures
            t@ == self@,
    {
        Transaction {
            sender: self.sender.clone(),
            recipient: self.recipient.clone(),
            amount: self.amount,
        }
    }

    /// Three-way comparison in the (sender, recipient, amount) order.
    pub fn compare(&self, other: &Transaction) -> (r: Rel)
        ensures
            (r == Rel::Less) == tx_lt(self@, other@),
            (r == Rel::Equal) == (self@ == other@),
            (r == Rel::Greater) == tx_lt(other@, self@),
    {
        proof {
            lemma_tx_lt_trichotomy(self@, other@);
        }
        let s = str_compare(self.sender.as_str(), other.sender.as_str());
        match s {
            Rel::Less => Rel::Less,
            Rel::Greater => Rel::Greater,
            Rel::Equal => {
                let rcp = str_compare(self.recipient.as_str(), other.recipient.as_str());
                match rcp {
                    Rel::Less => Rel::Less,
                    Rel::Greater => Rel::Greater,
                    Rel::Equal => {
                        if self.amount < other.amount {
                            Rel::Less
                        } else if other.amount < self.amount {
                            Rel::Greater
                        } else {
                            Rel::Equal
                        }
                    },
                }
            },
        }
    }
}

/// Inserts `tx` into a strictly sorted pool, keeping it sorted and
/// duplicate-free; inserting a transaction already present is a no-op.
pub fn insert_sorted(pool: &mut Vec<Transaction>, tx: Transaction)
    requires
        tx_sorted(old(pool).deep_view()),
    ensures
        tx_sorted(final(pool).deep_view()),
        final(pool).deep_view().to_set() == old(pool).deep_view().to_set().insert(tx@),
        old(pool).deep_view().contains(tx@) ==> final(pool).deep_view() == old(pool).deep_view(),
        !old(pool).deep_view().contains(tx@) ==> final(pool).deep_view().len() == old(
            pool).deep_view().len() + 1 && final(pool).deep_view().contains(tx@),
{
    let ghost p0 = pool.deep_view();
    let mut k: usize = 0;
    loop
        invariant
            k <= pool.len(),
            pool.deep_view() == p0,
            tx_sorted(p0),
            forall|j: int| 0 <= j < k ==> tx_lt(p0[j], tx@),
        ensures
            k <= pool.len(),
            pool.deep_view() == p0,
            forall|j: int| 0 <= j < k ==> tx_lt(p0[j], tx@),
            k < pool.len() ==> tx_lt(tx@, p0[k as int]),
        decreases pool.len() - k,
    {
        if k >= pool.len() {
            break;
        }
        let c = pool[k].compare(&tx);
        match c {
            Rel::Less => {
                k = k + 1;
            },
            Rel::Equal => {
                proof {
                    assert(p0[k as int] == tx@);
                    assert(p0.contains(tx@));
                    assert(p0.to_set() =~= p0.to_set().insert(tx@));
                }
                return ;
            },
            Rel::Greater => {
                break;
            },
        }
    }
    proof {
        if k < p0.len() {
            assert(tx_lt(tx@, p0[k as int]));
        }
        assert forall|j: int| 0 <= j < p0.len() implies p0[j] != tx@ by {
            lemma_tx_lt_trichotomy(p0[j], tx@);
            lemma_tx_lt_trichotomy(tx@, p0[j]);
            if j >= k {
                if j > k {
                    assert(tx_lt(p0[k as int], p0[j]));
                }
                lemma_tx_lt_trans(tx@, p0[k as int], p0[j]);
            }
        }
        assert(!p0.contains(tx@));
    }
    pool.insert(k, tx);
    proof {
        let p1 = pool.deep_view();
        assert(p1 =~= p0.insert(k as int, tx@)) by {
            assert(pool@.len() == p0.len() + 1);
            assert(forall|i: int|
                0 <= i < p1.len() ==> p1[i] == #[trigger] pool@[i].deep_view());
        }
        assert(p1[k as int] == tx@);
        assert forall|i: int, j: int| 0 <= i < j < p1.len() implies tx_lt(p1[i], p1[j]) by {
            if i < k && j == k {
            } else if i == k && j > k {
                if k < p0.len() {
                    if j > k + 1 {
                        lemma_tx_lt_trans(tx@, p0[k as int], p0[j - 1]);
                    }
                }
            } else if i < k && j > k {
                lemma_tx_lt_trans(p0[i], tx@, p0[j - 1]);
            }
        }
        assert(p1.to_set() =~= p0.to_set().insert(tx@)) by {
            assert forall|x: TxView| p1.contains(x) implies p0.contains(x) || x == tx@ by {
                let i = choose|i: int| 0 <= i < p1.len() && p1[i] == x;
                if i < k {
                    assert(p0[i] == x);
                } else if i > k {
                    assert(p0[i - 1] == x);
                }
            }
            assert forall|x: TxView| p0.contains(x) implies p1.contains(x) by {
                let i = choose|i: int| 0 <= i < p0.len() && p0[i] == x;
                if i < k {
                    assert(p1[i] == x);
                } else {
                    assert(p1[i + 1] == x);
                }
            }
            assert(p1.contains(tx@));
        }
    }
}

} // verus!
