//! Load balancing: choosing one address out of the addresses of a service.

use crate::text::{
    ascii_lower, chars_of, eq_ignore_case, equals_ignore_case, opt_text, string_views,
};
use rand::Rng;
use vstd::arithmetic::div_mod::{
    lemma_add_mod_noop, lemma_fundamental_div_mod, lemma_mod_bound, lemma_mod_mod,
    lemma_mod_self_0, lemma_small_mod,
};
use vstd::prelude::*;

verus! {

/// How the gateway chooses among the addresses of a service.
#[derive(Debug, Clone, PartialEq, Eq)]
pub enum LoadBalancerAlgorithm {
    /// Each address in turn.
    RoundRobin,
    /// Any address, by chance.
    Random,
    /// The pinned address, and no other.
    Strict(String),
}

/// A load-balancing algorithm as a mathematical value.
pub enum Algorithm {
    RoundRobin,
    Random,
    Strict(Seq<char>),
}

impl View for LoadBalancerAlgorithm {
    type V = Algorithm;

    open spec fn view(&self) -> Algorithm {
        match self {
            LoadBalancerAlgorithm::RoundRobin => Algorithm::RoundRobin,
            LoadBalancerAlgorithm::Random => Algorithm::Random,
            LoadBalancerAlgorithm::Strict(address) => Algorithm::Strict(address@),
        }
    }
}

/// The tag under which an algorithm is registered. The pinned address of
/// `Strict` is not part of it.
pub open spec fn tag_of(algorithm: Algorithm) -> Seq<char> {
    match algorithm {
        Algorithm::RoundRobin => "RoundRobin"@,
        Algorithm::Random => "Random"@,
        Algorithm::Strict(_) => "Strict"@,
    }
}

/// The algorithm that a tag names, read without regard to the case of ASCII
/// letters. `strict` names the strict algorithm with an empty pin; a tag
/// that names none falls back to round robin.
pub open spec fn parse_tag(tag: Seq<char>) -> Algorithm {
    if eq_ignore_case(tag, "random"@) {
        Algorithm::Random
    } else if eq_ignore_case(tag, "strict"@) {
        Algorithm::Strict(Seq::empty())
    } else {
        Algorithm::RoundRobin
    }
}

/// The address chosen out of `addresses`: none where there is no address;
/// for round robin the address at `ticket` modulo their number; for random
/// the one at `roll` modulo their number; for strict the pinned address if
/// it is among them, and else none.
pub open spec fn pick_spec(
    algorithm: Algorithm,
    addresses: Seq<Seq<char>>,
    ticket: nat,
    roll: nat,
) -> Option<Seq<char>> {
    if addresses.len() == 0 {
        None
    } else {
        match algorithm {
            Algorithm::RoundRobin => Some(addresses[(ticket % addresses.len()) as int]),
            Algorithm::Random => Some(addresses[(roll % addresses.len()) as int]),
            Algorithm::Strict(pinned) => if addresses.contains(pinned) {
                Some(pinned)
            } else {
                None
            },
        }
    }
}

/// The number of values that the round-robin counter runs through before it
/// starts again at zero.
pub open spec fn counter_span() -> nat {
    (usize::MAX as nat) + 1
}

/// The ticket that the `k`-th call after `start` draws.
pub open spec fn nth_ticket(start: nat, k: nat) -> nat {
    (start + k) % counter_span()
}

/// The counter from which round robin draws its tickets.
#[derive(Debug)]
pub struct RoundRobinCounter {
    next: usize,
}

impl RoundRobinCounter {
    /// The ticket that the next call of `take` returns.
    pub closed spec fn value(&self) -> nat {
        self.next as nat
    }

    /// A counter that starts at zero.
    pub fn new() -> (counter: Self)
        ensures
            counter.value() == 0,
    {
        RoundRobinCounter { next: 0 }
    }

    /// Draws a ticket and advances the counter, which starts again at zero
    /// after the largest value.
    pub fn take(&mut self) -> (ticket: usize)
        ensures
            ticket == old(self).value(),
            final(self).value() == nth_ticket(old(self).value(), 1),
    {
        let ticket = self.next;
        proof {
            if ticket == usize::MAX {
                lemma_mod_self_0(counter_span() as int);
            } else {
                lemma_small_mod((ticket + 1) as nat, counter_span());
            }
        }
        self.next = if ticket == usize::MAX {
            0
        } else {
            ticket + 1
        };
        ticket
    }
}

/// `Rng::gen_range` on the generator of the current thread, over the range
/// from zero up to, not including, `n`: some index below `n`, which differs
/// from call to call. The range must not be empty. The generator gives up
/// where the system has no randomness to seed it with.
#[verifier::external_body]
fn random_below(n: usize) -> (r: usize)
    requires
        n > 0,
    ensures
        r < n,
{
    rand::thread_rng().gen_range(0..n)
}

impl LoadBalancerAlgorithm {
    /// The algorithm that a strict-address setting asks for: strict with
    /// that address where the setting is present and not empty, and round
    /// robin else.
    pub fn from_strict_address(setting: Option<String>) -> (r: Self)
        ensures
            r@ == match setting {
                Some(address) => if address@.len() > 0 {
                    Algorithm::Strict(address@)
                } else {
                    Algorithm::RoundRobin
                },
                None => Algorithm::RoundRobin,
            },
    {
        match setting {
            Some(address) => {
                if address.as_str().is_empty() {
                    LoadBalancerAlgorithm::RoundRobin
                } else {
                    LoadBalancerAlgorithm::Strict(address)
                }
            },
            None => LoadBalancerAlgorithm::RoundRobin,
        }
    }

    /// Chooses with the ticket and the roll given.
    pub fn pick(&self, addresses: &[String], ticket: usize, roll: usize) -> (r: Option<String>)
        ensures
            opt_text(r) == pick_spec(self@, string_views(addresses@), ticket as nat, roll as nat),
    {
        let n = addresses.len();
        if n == 0 {
            return None;
        }
        match self {
            LoadBalancerAlgorithm::RoundRobin => {
                let i = ticket % n;
                assert(string_views(addresses@)[i as int] == addresses@[i as int]@);
                Some(addresses[i].clone())
            },
            LoadBalancerAlgorithm::Random => {
                let i = roll % n;
                assert(string_views(addresses@)[i as int] == addresses@[i as int]@);
                Some(addresses[i].clone())
            },
            LoadBalancerAlgorithm::Strict(pinned) => {
                let mut i: usize = 0;
                while i < n
                    invariant
                        i <= n,
                        0 < n == addresses.len(),
                        self@ == Algorithm::Strict(pinned@),
                        forall|k: int| 0 <= k < i ==> string_views(addresses@)[k] != pinned@,
                    decreases n - i,
                {
                    assert(string_views(addresses@)[i as int] == addresses@[i as int]@);
                    if addresses[i] == *pinned {
                        let r = pinned.clone();
                        assert(string_views(addresses@)[i as int] == pinned@);
                        assert(string_views(addresses@).contains(pinned@));
                        return Some(r);
                    }
                    i += 1;
                }
                None
            },
        }
    }

    /// Chooses one of `addresses`, or none. Round robin draws a ticket from
    /// `counter`; the other algorithms leave the counter alone.
    pub fn select_address(&self, addresses: &[String], counter: &mut RoundRobinCounter) -> (r:
        Option<String>)
        ensures
            exists|roll: nat| #[trigger]
                pick_spec(self@, string_views(addresses@), old(counter).value(), roll) == opt_text(r),
            final(counter).value() == if self@ is RoundRobin && addresses.len() > 0 {
                nth_ticket(old(counter).value(), 1)
            } else {
                old(counter).value()
            },
    {
        if addresses.len() == 0 {
            assert(pick_spec(self@, string_views(addresses@), old(counter).value(), 0) is None);
            return None;
        }
        match self {
            LoadBalancerAlgorithm::RoundRobin => {
                let ticket = counter.take();
                let r = self.pick(addresses, ticket, 0);
                assert(pick_spec(self@, string_views(addresses@), old(counter).value(), 0)
                    == opt_text(r));
                r
            },
            LoadBalancerAlgorithm::Random => {
                let roll = random_below(addresses.len());
                let r = self.pick(addresses, 0, roll);
                assert(pick_spec(self@, string_views(addresses@), old(counter).value(), roll as nat)
                    == opt_text(r));
                r
            },
            LoadBalancerAlgorithm::Strict(_) => {
                let r = self.pick(addresses, 0, 0);
                assert(pick_spec(self@, string_views(addresses@), old(counter).value(), 0)
                    == opt_text(r));
                r
            },
        }
    }

    /// The tag under which the algorithm is registered.
    pub fn to_string(&self) -> (tag: String)
        ensures
            tag@ == tag_of(self@),
    {
        match self {
            LoadBalancerAlgorithm::RoundRobin => "RoundRobin".to_owned(),
            LoadBalancerAlgorithm::Random => "Random".to_owned(),
            LoadBalancerAlgorithm::Strict(_) => "Strict".to_owned(),
        }
    }
}

/// Reads an algorithm from its tag, without regard to the case of ASCII
/// letters. An unknown tag gives round robin; `strict` gives the strict
/// algorithm with an empty pin.
pub fn parse_lba(tag: &str) -> (r: LoadBalancerAlgorithm)
    ensures
        r@ == parse_tag(tag@),
{
    let text = chars_of(tag);
    let random = chars_of("random");
    let strict = chars_of("strict");
    if equals_ignore_case(text.as_slice(), random.as_slice()) {
        LoadBalancerAlgorithm::Random
    } else if equals_ignore_case(text.as_slice(), strict.as_slice()) {
        LoadBalancerAlgorithm::Strict(String::new())
    } else {
        LoadBalancerAlgorithm::RoundRobin
    }
}

/// Reading back the tag of an algorithm gives the algorithm, for round
/// robin and random; the tag of strict does not hold the pin, and reads
/// back as strict with an empty pin.
pub proof fn lemma_tag_round_trip(algorithm: Algorithm)
    ensures
        parse_tag(tag_of(algorithm)) == match algorithm {
            Algorithm::RoundRobin => Algorithm::RoundRobin,
            Algorithm::Random => Algorithm::Random,
            Algorithm::Strict(_) => Algorithm::Strict(Seq::empty()),
        },
{
    reveal_strlit("RoundRobin");
    reveal_strlit("Random");
    reveal_strlit("Strict");
    reveal_strlit("random");
    reveal_strlit("strict");
    match algorithm {
        Algorithm::RoundRobin => {
            assert(ascii_lower("RoundRobin"@).len() != ascii_lower("random"@).len());
            assert(ascii_lower("RoundRobin"@).len() != ascii_lower("strict"@).len());
        },
        Algorithm::Random => {
            assert(ascii_lower("Random"@) =~= ascii_lower("random"@));
        },
        Algorithm::Strict(_) => {
            assert(ascii_lower("Strict"@)[0] != ascii_lower("random"@)[0]);
            assert(ascii_lower("Strict"@) =~= ascii_lower("strict"@));
        },
    }
}

/// Strict selection returns the pinned address if and only if it is among
/// the addresses, and nothing else.
pub proof fn lemma_strict_selects_pin(
    pinned: Seq<char>,
    addresses: Seq<Seq<char>>,
    ticket: nat,
    roll: nat,
)
    ensures
        pick_spec(Algorithm::Strict(pinned), addresses, ticket, roll) == if addresses.contains(
            pinned,
        ) {
            Some(pinned)
        } else {
            None
        },
{
}

/// Whatever the algorithm, nothing is selected out of no addresses.
pub proof fn lemma_select_of_none(algorithm: Algorithm, ticket: nat, roll: nat)
    ensures
        pick_spec(algorithm, Seq::empty(), ticket, roll) is None,
{
}

/// Round robin visits every address within any `n` consecutive calls on
/// `n` addresses: for each address, one of the `n` calls that follow the
/// ticket `start` selects it. The window must not run over the point where
/// the counter starts again at zero, unless `n` divides the counter's span.
pub proof fn lemma_round_robin_visits_all(addresses: Seq<Seq<char>>, start: nat, j: int)
    requires
        0 <= j < addresses.len(),
        start < counter_span(),
        start + addresses.len() <= counter_span() || counter_span() % addresses.len() == 0,
    ensures
        exists|k: nat|
            k < addresses.len() && #[trigger] pick_spec(
                Algorithm::RoundRobin,
                addresses,
                nth_ticket(start, k),
                0,
            ) == Some(addresses[j]),
{
    let n = addresses.len() as int;
    let k = ((j - start as int) % n) as nat;
    lemma_mod_bound(j - start as int, n);
    // (start + k) % n == j
    assert((start as int + k as int) % n == j) by {
        lemma_add_mod_noop(start as int, j - start as int, n);
        lemma_add_mod_noop(start as int, k as int, n);
        lemma_small_mod(k, n as nat);
        lemma_small_mod(j as nat, n as nat);
        assert(start as int + (j - start as int) == j);
    }
    let t = nth_ticket(start, k);
    assert((t as int) % n == j) by {
        if start + addresses.len() <= counter_span() {
            lemma_small_mod(start + k, counter_span());
        } else {
            let q = counter_span() as int / n;
            lemma_fundamental_div_mod(counter_span() as int, n);
            assert(counter_span() as int == n * q);
            lemma_mod_mod(start as int + k as int, n, q);
        }
    }
    assert(pick_spec(Algorithm::RoundRobin, addresses, t, 0) == Some(addresses[j]));
}

} // verus!
