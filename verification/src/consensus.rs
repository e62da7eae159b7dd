//! Longest-valid-chain consensus: among the chains fetched from peers,
//! replace the local chain with the unique longest valid strictly longer
//! candidate, and otherwise keep the local chain.

use crate::block::{Block, BlockView};
use crate::blockchain::{valid_chain, Blockchain};
use vstd::prelude::*;

verus! {

/// A fetched peer report is eligible when the peer answered with a chain
/// that is valid at the local difficulty and strictly longer than the local
/// chain. Unreachable peers (`None`) are never eligible.
pub open spec fn eligible(c: Option<Seq<BlockView>>, difficulty: u64, local_len: int) -> bool {
    match c {
        Some(s) => valid_chain(s, difficulty) && s.len() > local_len,
        None => false,
    }
}

/// The length of a fetched chain; 0 for an unreachable peer.
pub open spec fn fetched_len(c: Option<Seq<BlockView>>) -> int {
    match c {
        Some(s) => s.len() as int,
        None => 0,
    }
}

/// Position `w` holds the unique longest eligible candidate.
pub open spec fn strict_winner(
    cands: Seq<Option<Seq<BlockView>>>,
    w: int,
    difficulty: u64,
    local_len: int,
) -> bool {
    &&& 0 <= w < cands.len()
    &&& eligible(cands[w], difficulty, local_len)
    &&& forall|j: int|
        0 <= j < cands.len() && j != w && eligible(#[trigger] cands[j], difficulty, local_len)
            ==> fetched_len(cands[j]) < fetched_len(cands[w])
}

/// Resolves conflicts against the fetched peer chains: the local chain is
/// replaced exactly when a unique longest valid strictly longer candidate
/// exists, and then by that candidate; a shorter, equally long, or invalid
/// candidate never displaces the local chain. `None` entries are peers that
/// did not answer and are skipped. Returns whether the chain was replaced.
pub fn resolve_conflicts(ledger: &mut Blockchain, fetched: Vec<Option<Vec<Block>>>) -> (replaced:
    bool)
    requires
        old(ledger).wf(),
    ensures
        final(ledger).wf(),
        final(ledger).difficulty == old(ledger).difficulty,
        final(ledger).pending_transactions == old(ledger).pending_transactions,
        replaced == exists|w: int|
            strict_winner(
                fetched.deep_view(),
                w,
                old(ledger).difficulty,
                old(ledger).chain@.len() as int,
            ),
        replaced ==> exists|w: int|
            #[trigger] strict_winner(
                fetched.deep_view(),
                w,
                old(ledger).difficulty,
                old(ledger).chain@.len() as int,
            ) && fetched.deep_view()[w] == Some(final(ledger).chain.deep_view()),
        replaced ==> valid_chain(final(ledger).chain.deep_view(), old(ledger).difficulty)
            && final(ledger).chain@.len() > old(ledger).chain@.len(),
        !replaced ==> final(ledger).chain == old(ledger).chain,
        final(ledger).chain@.len() >= old(ledger).chain@.len(),
{
    let ghost cands = fetched.deep_view();
    let ghost d = ledger.difficulty;
    let ghost local_len = ledger.chain@.len() as int;
    let chain_len = ledger.chain().len();
    let mut best: usize = 0;
    let mut have_best = false;
    let mut best_len: usize = 0;
    let mut tie = false;
    let mut i: usize = 0;
    while i < fetched.len()
        invariant
            i <= fetched.len(),
            cands == fetched.deep_view(),
            cands.len() == fetched@.len(),
            *ledger == *old(ledger),
            ledger.wf(),
            d == ledger.difficulty,
            local_len == ledger.chain@.len() as int,
            chain_len == ledger.chain@.len(),
            have_best ==> best < i && eligible(cands[best as int], d, local_len) && fetched_len(
                cands[best as int],
            ) == best_len,
            have_best ==> forall|j: int|
                0 <= j < i && eligible(#[trigger] cands[j], d, local_len) ==> fetched_len(
                    cands[j],
                ) <= best_len,
            !have_best ==> forall|j: int|
                0 <= j < i ==> !eligible(#[trigger] cands[j], d, local_len),
            tie ==> have_best,
            tie == (have_best && exists|j: int|
                0 <= j < i && j != best && eligible(#[trigger] cands[j], d, local_len)
                    && fetched_len(cands[j]) == best_len),
        decreases fetched.len() - i,
    {
        let entry = &fetched[i];
        match entry {
            Some(cv) => {
                proof {
                    assert(cands[i as int] == Some(cv.deep_view()));
                }
                if cv.len() > chain_len {
                    let ok = ledger.is_valid_chain(cv);
                    if ok {
                        proof {
                            assert(eligible(cands[i as int], d, local_len));
                            assert(fetched_len(cands[i as int]) == cv@.len());
                        }
                        if !have_best {
                            have_best = true;
                            best = i;
                            best_len = cv.len();
                            tie = false;
                        } else if cv.len() > best_len {
                            best = i;
                            best_len = cv.len();
                            tie = false;
                        } else if cv.len() == best_len {
                            tie = true;
                            proof {
                                assert(i as int != best as int && eligible(
                                    cands[i as int],
                                    d,
                                    local_len,
                                ) && fetched_len(cands[i as int]) == best_len);
                            }
                        }
                    }
                }
            },
            None => {
                proof {
                    assert(cands[i as int] is None);
                }
            },
        }
        i = i + 1;
    }
    if have_best && !tie {
        proof {
            assert(strict_winner(cands, best as int, d, local_len)) by {
                assert forall|j: int|
                    0 <= j < cands.len() && j != best as int && eligible(
                        #[trigger] cands[j],
                        d,
                        local_len,
                    ) implies fetched_len(cands[j]) < fetched_len(cands[best as int]) by {
                    assert(fetched_len(cands[j]) <= best_len);
                    if fetched_len(cands[j]) == best_len {
                        assert(tie);
                    }
                }
            }
        }
        let mut fetched = fetched;
        let winner_opt = fetched.remove(best);
        match winner_opt {
            Some(winner) => {
                proof {
                    assert(cands[best as int] == Some(winner.deep_view()));
                    assert(valid_chain(winner.deep_view(), d));
                    assert(winner@.len() > ledger.chain@.len());
                }
                ledger.replace_chain(winner);
                true
            },
            None => {
                proof {
                    assert(false);
                }
                false
            },
        }
    } else {
        proof {
            assert forall|w: int| !strict_winner(cands, w, d, local_len) by {
                if strict_winner(cands, w, d, local_len) {
                    if !have_best {
                        assert(eligible(cands[w], d, local_len));
                        assert(false);
                    } else if tie {
                        let j = choose|j: int|
                            0 <= j < i && j != best && eligible(#[trigger] cands[j], d, local_len)
                                && fetched_len(cands[j]) == best_len;
                        if w == best as int {
                            assert(fetched_len(cands[j]) < fetched_len(cands[w]));
                            assert(false);
                        } else {
                            assert(fetched_len(cands[best as int]) < fetched_len(cands[w]));
                            assert(fetched_len(cands[w]) <= best_len);
                            assert(false);
                        }
                    } else {
                        assert(false);
                    }
                }
            }
        }
        false
    }
}

} // verus!
