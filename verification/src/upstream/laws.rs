//! What asking, dialing and failing come to, said of the answers and the times.

use crate::config::{IpStack, UpstreamView};
use crate::ip::{endpoint_text, ip_text, Endpoint, Ip};
use crate::text::{debug_text, decimal};
use crate::upstream::bootstrap::{
    address_of, address_ttl, addresses, deduped, dial_order, invalid_host, is_lookup_step, later,
    law_dial_order, law_remembered_until_expiry, of_family, record_type, remembered, started,
    with_entry, LookupStep, LookupView, QUERY_TIMEOUT_SECS,
};
use crate::upstream::encrypted::{
    has_budget, is_acquired, is_own, is_verdict, own_message, slot_after, Acquired, DialingView,
    Lease, Sent, Slot, Verdict, CONNECT_TIMEOUT,
};
use crate::upstream::legacy::{is_legacy_step, is_reply, LegacyFacts, LegacyStep};
use crate::upstream::message::{Answer, Content};
use crate::upstream::{
    accepted, deadline_of, first_self_loop, is_safe, self_loop_message, FALLBACK_TIMEOUT_SECS,
};
use crate::wire::response_check;
use vstd::prelude::*;
use vstd::string::*;

verus! {

// ---------- resolving a host ----------

/// What a question to a bootstrap server brought.
pub type Reply = Result<(Seq<Ip>, u32), Seq<char>>;

/// A resolution after some replies.
pub open spec fn run_lookup(l: LookupView, replies: Seq<Reply>) -> LookupView
    decreases replies.len(),
{
    if replies.len() == 0 {
        l
    } else {
        run_lookup(l, replies.drop_last()).after(replies.last())
    }
}

/// What a resolution knows after some replies: all addresses that were answered,
/// and no others, and the smallest TTL among the answers, a day at most.
pub proof fn law_replies_are_collected(host: Seq<char>, stack: IpStack, replies: Seq<Reply>)
    ensures
        ({
            let l = run_lookup(started(host, stack), replies);
            &&& l.host == host
            &&& l.stack == stack
            &&& l.min_ttl <= 86_400
            &&& forall|i: int|
                0 <= i < replies.len() ==> (#[trigger] replies[i] matches Ok((_, ttl)) ==> l.min_ttl
                    <= ttl)
            &&& l.min_ttl == 86_400 || exists|i: int|
                0 <= i < replies.len() && (#[trigger] replies[i] matches Ok((_, ttl)) && ttl
                    == l.min_ttl)
            &&& forall|i: int, k: int|
                #![trigger replies[i], (replies[i]->Ok_0).0[k]]
                0 <= i < replies.len() && replies[i] is Ok && 0 <= k < (replies[i]->Ok_0).0.len()
                    ==> l.ips.contains((replies[i]->Ok_0).0[k])
            &&& forall|k: int|
                0 <= k < l.ips.len() ==> exists|i: int|
                    0 <= i < replies.len() && (#[trigger] replies[i] matches Ok((ips, _))
                        && ips.contains(#[trigger] l.ips[k]))
        }),
    decreases replies.len(),
{
    if replies.len() > 0 {
        let shorter = replies.drop_last();
        let last = replies.last();
        law_replies_are_collected(host, stack, shorter);
        let before = run_lookup(started(host, stack), shorter);
        let l = run_lookup(started(host, stack), replies);
        assert(replies[replies.len() - 1] == last);
        assert(forall|i: int| 0 <= i < shorter.len() ==> #[trigger] replies[i] == shorter[i]);
        assert forall|i: int| 0 <= i < replies.len() implies (#[trigger] replies[i] matches Ok(
            (_, ttl),
        ) ==> l.min_ttl <= ttl) by {
            if i < shorter.len() {
                assert(shorter[i] == replies[i]);
            }
        }
        if l.min_ttl != 86_400 {
            if l.min_ttl == before.min_ttl {
                let i = choose|i: int|
                    0 <= i < shorter.len() && (#[trigger] shorter[i] matches Ok((_, ttl)) && ttl
                        == before.min_ttl);
                assert(replies[i] == shorter[i]);
            } else {
                assert(replies[replies.len() - 1] matches Ok((_, ttl)) && ttl == l.min_ttl);
            }
        }
        assert forall|i: int, k: int|
            #![trigger replies[i], (replies[i]->Ok_0).0[k]]
            0 <= i < replies.len() && replies[i] is Ok && 0 <= k < (
            replies[i]->Ok_0).0.len() implies l.ips.contains((replies[i]->Ok_0).0[k]) by {
            let ip = (replies[i]->Ok_0).0[k];
            if i < shorter.len() {
                assert(shorter[i] == replies[i]);
                assert(before.ips.contains((shorter[i]->Ok_0).0[k]));
                let j = choose|j: int| 0 <= j < before.ips.len() && before.ips[j] == ip;
                assert(l.ips[j] == ip);
            } else {
                assert(l.ips[before.ips.len() + k] == ip);
            }
        }
        assert forall|k: int| 0 <= k < l.ips.len() implies exists|i: int|
            0 <= i < replies.len() && (#[trigger] replies[i] matches Ok((ips, _)) && ips.contains(
                #[trigger] l.ips[k],
            )) by {
            if k < before.ips.len() {
                assert(before.ips[k] == l.ips[k]);
                let i = choose|i: int|
                    0 <= i < shorter.len() && (#[trigger] shorter[i] matches Ok((ips, _))
                        && ips.contains(before.ips[k]));
                assert(replies[i] == shorter[i]);
            } else {
                assert((last->Ok_0).0[k - before.ips.len()] == l.ips[k]);
                assert(replies[replies.len() - 1] == last);
            }
        }
    }
}

/// Addresses are kept for the smallest TTL with which they were answered; but for
/// a minute at least, and a day at most.
pub proof fn law_addresses_are_kept_for_the_smallest_ttl(
    host: Seq<char>,
    stack: IpStack,
    replies: Seq<Reply>,
    ips: Vec<Ip>,
    ttl: u64,
)
    requires
        is_lookup_step(
            run_lookup(started(host, stack), replies),
            LookupStep::Finished(Ok((ips, ttl))),
        ),
    ensures
        60 <= ttl <= 86_400,
        forall|i: int|
            0 <= i < replies.len() ==> (#[trigger] replies[i] matches Ok((_, answered)) ==> ttl
                == 60 || ttl <= answered),
        ttl == 86_400 || (exists|i: int|
            0 <= i < replies.len() && (#[trigger] replies[i] matches Ok((_, answered)) && (answered
                == ttl || answered < 60 && ttl == 60))),
        ips@.len() > 0,
        forall|k: int|
            0 <= k < ips@.len() ==> exists|i: int|
                0 <= i < replies.len() && (#[trigger] replies[i] matches Ok((all, _))
                    && all.contains(#[trigger] ips@[k])),
{
    law_replies_are_collected(host, stack, replies);
    let l = run_lookup(started(host, stack), replies);
    law_dial_order(l.ips);
    assert(l.ips.contains(l.ips[0]));
    assert(dial_order(l.ips).contains(l.ips[0]));
    assert forall|k: int| 0 <= k < ips@.len() implies exists|i: int|
        0 <= i < replies.len() && (#[trigger] replies[i] matches Ok((all, _)) && all.contains(
            #[trigger] ips@[k],
        )) by {
        assert(dial_order(l.ips).contains(ips@[k]));
        let j = choose|j: int| 0 <= j < l.ips.len() && l.ips[j] == ips@[k];
        assert(l.ips[j] == ips@[k]);
    }
    if ttl != 86_400 && l.min_ttl != 86_400 {
        let i = choose|i: int|
            0 <= i < replies.len() && (#[trigger] replies[i] matches Ok((_, answered)) && answered
                == l.min_ttl);
        assert(replies[i] matches Ok((_, answered)) && (answered == ttl || answered < 60 && ttl
            == 60));
    }
}

/// Whether all addresses are of one family.
pub open spec fn are_of_family(ips: Seq<Ip>, v4: bool) -> bool {
    forall|i: int| 0 <= i < ips.len() ==> ((#[trigger] ips[i] is V4) == v4)
}

proof fn lemma_families_of_one(a: Seq<Ip>, v4: bool, wanted: bool)
    requires
        are_of_family(a, v4),
    ensures
        of_family(a, wanted) == if v4 == wanted {
            a
        } else {
            Seq::empty()
        },
    decreases a.len(),
{
    if a.len() > 0 {
        let shorter = a.drop_last();
        assert forall|i: int| 0 <= i < shorter.len() implies ((#[trigger] shorter[i] is V4)
            == v4) by {
            assert(shorter[i] == a[i]);
        }
        lemma_families_of_one(shorter, v4, wanted);
        assert(a[a.len() - 1] is V4 == v4);
        assert(a =~= shorter.push(a.last()));
    }
}

proof fn lemma_families_of_parts(a: Seq<Ip>, b: Seq<Ip>, v4: bool)
    ensures
        of_family(a + b, v4) == of_family(a, v4) + of_family(b, v4),
    decreases b.len(),
{
    if b.len() == 0 {
        assert(a + b =~= a);
        assert(of_family(a, v4) + of_family(b, v4) =~= of_family(a, v4));
    } else {
        lemma_families_of_parts(a, b.drop_last(), v4);
        assert((a + b).drop_last() =~= a + b.drop_last());
        assert((a + b).last() == b.last());
        assert(of_family(a + b, v4) =~= of_family(a, v4) + of_family(b, v4));
    }
}

proof fn lemma_nothing_to_drop(s: Seq<Ip>)
    requires
        forall|i: int, j: int| 0 <= i && j == i + 1 && j < s.len() ==> #[trigger] s[i] != #[trigger] s[j],
    ensures
        deduped(s) == s,
    decreases s.len(),
{
    if s.len() > 0 {
        let shorter = s.drop_last();
        assert forall|i: int, j: int|
            0 <= i && j == i + 1 && j < shorter.len() implies #[trigger] shorter[i]
            != #[trigger] shorter[j] by {
            assert(s[i] == shorter[i] && s[j] == shorter[j]);
        }
        lemma_nothing_to_drop(shorter);
        if s.len() > 1 {
            assert(s[s.len() - 2] != s[s.len() - 1]);
        }
        assert(s =~= shorter.push(s.last()));
    }
}

proof fn lemma_no_neighbours(s: Seq<Ip>)
    ensures
        s.len() > 0 ==> deduped(s).len() > 0 && deduped(s).last() == s.last(),
        forall|i: int, j: int|
            0 <= i && j == i + 1 && j < deduped(s).len() ==> #[trigger] deduped(s)[i]
                != #[trigger] deduped(s)[j],
    decreases s.len(),
{
    if s.len() > 0 {
        let shorter = s.drop_last();
        lemma_no_neighbours(shorter);
        let before = deduped(shorter);
        if s.len() > 1 {
            assert(shorter.last() == s[s.len() - 2]);
        }
        assert forall|i: int, j: int|
            0 <= i && j == i + 1 && j < deduped(s).len() implies #[trigger] deduped(s)[i]
            != #[trigger] deduped(s)[j] by {
            if j < before.len() {
                assert(before[i] == deduped(s)[i] && before[j] == deduped(s)[j]);
            } else {
                assert(before[i] == before.last());
            }
        }
    }
}

/// Addresses are dialed in the order in which they were answered, IPv4 first
/// however the families were mixed up; no address is dialed twice in a row.
pub proof fn law_dialing_keeps_the_order(a: Seq<Ip>, b: Seq<Ip>)
    requires
        are_of_family(a, true),
        are_of_family(b, false),
    ensures
        forall|i: int, j: int|
            0 <= i && j == i + 1 && j < dial_order(b + a).len() ==> #[trigger] dial_order(b + a)[i]
                != #[trigger] dial_order(b + a)[j],
        dial_order(b + a) == dial_order(a + b),
        (forall|i: int, j: int|
            0 <= i && j == i + 1 && j < a.len() + b.len() ==> #[trigger] (a + b)[i]
                != #[trigger] (a + b)[j]) ==> dial_order(a + b) == a + b,
{
    lemma_families_of_one(a, true, true);
    lemma_families_of_one(a, true, false);
    lemma_families_of_one(b, false, true);
    lemma_families_of_one(b, false, false);
    lemma_families_of_parts(a, b, true);
    lemma_families_of_parts(a, b, false);
    lemma_families_of_parts(b, a, true);
    lemma_families_of_parts(b, a, false);
    let none = Seq::<Ip>::empty();
    assert(a + none =~= a && none + a =~= a && b + none =~= b && none + b =~= b);
    lemma_no_neighbours(of_family(b + a, true) + of_family(b + a, false));
    if forall|i: int, j: int|
        0 <= i && j == i + 1 && j < a.len() + b.len() ==> #[trigger] (a + b)[i]
            != #[trigger] (a + b)[j] {
        lemma_nothing_to_drop(a + b);
    }
}

/// How many families a stack is resolved to.
pub open spec fn family_count(stack: IpStack) -> int {
    if stack == IpStack::Both {
        2
    } else {
        1
    }
}

proof fn lemma_place_of_questions(host: Seq<char>, stack: IpStack, replies: Seq<Reply>)
    requires
        replies.len() <= 2 * family_count(stack),
    ensures
        ({
            let l = run_lookup(started(host, stack), replies);
            &&& stack == IpStack::Both ==> 2 * l.server + l.asked == replies.len() && 0 <= l.asked
                < 2
            &&& stack != IpStack::Both ==> l.server == replies.len() && l.asked == 0
            &&& l.stack == stack
        }),
    decreases replies.len(),
{
    if replies.len() > 0 {
        lemma_place_of_questions(host, stack, replies.drop_last());
    }
}

/// Whom a resolution asks for what: 1.1.1.1 first and then 8.8.8.8; each for the
/// IPv4 addresses and then the IPv6 addresses, as far as the stack wants them. It
/// goes on to the second server only where the first gave no address, and ends
/// after the second.
pub proof fn law_questions_are_asked_in_order(
    host: Seq<char>,
    stack: IpStack,
    replies: Seq<Reply>,
    step: LookupStep,
)
    requires
        replies.len() <= 2 * family_count(stack),
        is_lookup_step(run_lookup(started(host, stack), replies), step),
    ensures
        ({
            let n = replies.len();
            let found = run_lookup(started(host, stack), replies).ips.len() > 0;
            let first = Ip::V4(1, 1, 1, 1);
            let second = Ip::V4(8, 8, 8, 8);
            &&& stack == IpStack::V4 && n == 0 ==> step == (LookupStep::Ask {
                server: first,
                v6: false,
            })
            &&& stack == IpStack::V4 && n == 1 && !found ==> step == (LookupStep::Ask {
                server: second,
                v6: false,
            })
            &&& stack == IpStack::V6 && n == 0 ==> step == (LookupStep::Ask {
                server: first,
                v6: true,
            })
            &&& stack == IpStack::V6 && n == 1 && !found ==> step == (LookupStep::Ask {
                server: second,
                v6: true,
            })
            &&& stack == IpStack::Both && n == 0 ==> step == (LookupStep::Ask {
                server: first,
                v6: false,
            })
            &&& stack == IpStack::Both && n == 1 ==> step == (LookupStep::Ask {
                server: first,
                v6: true,
            })
            &&& stack == IpStack::Both && n == 2 && !found ==> step == (LookupStep::Ask {
                server: second,
                v6: false,
            })
            &&& stack == IpStack::Both && n == 3 ==> step == (LookupStep::Ask {
                server: second,
                v6: true,
            })
            &&& n == family_count(stack) && found ==> (step matches LookupStep::Finished(Ok(_)))
            &&& n == 2 * family_count(stack) && !found ==> (step matches LookupStep::Finished(
                Err(_),
            ))
            &&& n == 2 * family_count(stack) && found ==> (step matches LookupStep::Finished(Ok(_)))
        }),
{
    lemma_place_of_questions(host, stack, replies);
    law_replies_are_collected(host, stack, replies);
    if replies.len() == 0 {
        assert(run_lookup(started(host, stack), replies).ips.len() == 0);
    }
}

/// A resolution that ends without an address reports the host and the last error
/// that it met, or that there was nobody to ask.
pub proof fn law_failed_lookups(
    host: Seq<char>,
    stack: IpStack,
    replies: Seq<Reply>,
    message: String,
)
    requires
        is_lookup_step(
            run_lookup(started(host, stack), replies),
            LookupStep::Finished(Err(message)),
        ),
    ensures
        (forall|i: int| 0 <= i < replies.len() ==> #[trigger] replies[i] is Ok) ==> message@
            == "bootstrap failed for "@ + host + ": "@ + "no bootstrap servers"@,
        forall|k: int|
            0 <= k < replies.len() && (#[trigger] replies[k] matches Err(said) && (forall|i: int|
                k < i < replies.len() ==> #[trigger] replies[i] is Ok)) ==> message@
                == "bootstrap failed for "@ + host + ": "@ + replies[k]->Err_0,
        forall|i: int|
            0 <= i < replies.len() ==> (#[trigger] replies[i] matches Ok((ips, _)) ==> ips.len()
                == 0),
{
    law_replies_are_collected(host, stack, replies);
    lemma_last_error(host, stack, replies);
    assert forall|i: int| 0 <= i < replies.len() implies (#[trigger] replies[i] matches Ok((ips, _))
        ==> ips.len() == 0) by {
        if let Ok((ips, _)) = replies[i] {
            if ips.len() > 0 {
                let l = run_lookup(started(host, stack), replies);
                assert((replies[i]->Ok_0).0[0] == ips[0]);
                assert(l.ips.contains(ips[0]));
            }
        }
    }
}

proof fn lemma_last_error(host: Seq<char>, stack: IpStack, replies: Seq<Reply>)
    ensures
        ({
            let l = run_lookup(started(host, stack), replies);
            &&& (forall|i: int| 0 <= i < replies.len() ==> #[trigger] replies[i] is Ok)
                ==> l.last_err == "no bootstrap servers"@
            &&& forall|k: int|
                0 <= k < replies.len() && (#[trigger] replies[k] matches Err(said) && (forall|
                    i: int,
                |
                    k < i < replies.len() ==> #[trigger] replies[i] is Ok)) ==> l.last_err
                    == replies[k]->Err_0
        }),
    decreases replies.len(),
{
    if replies.len() > 0 {
        let shorter = replies.drop_last();
        lemma_last_error(host, stack, shorter);
        let l = run_lookup(started(host, stack), replies);
        let last = replies.len() - 1;
        assert(replies[last] == replies.last());
        assert(forall|i: int| 0 <= i < shorter.len() ==> #[trigger] shorter[i] == replies[i]);
        if forall|i: int| 0 <= i < replies.len() ==> #[trigger] replies[i] is Ok {
            assert(replies[last] is Ok);
            assert forall|i: int| 0 <= i < shorter.len() implies #[trigger] shorter[i] is Ok by {
                assert(replies[i] is Ok);
            }
        }
        assert forall|k: int|
            0 <= k < replies.len() && (#[trigger] replies[k] matches Err(said) && (forall|i: int|
                k < i < replies.len() ==> #[trigger] replies[i] is Ok)) implies l.last_err
            == replies[k]->Err_0 by {
            if k < last {
                assert(replies[last] is Ok);
                assert(shorter[k] == replies[k]);
                assert forall|i: int| k < i < shorter.len() implies #[trigger] shorter[i] is Ok by {
                    assert(replies[i] is Ok);
                }
            }
        }
    }
}

/// A host that is no name is refused by its text.
pub proof fn law_refused_hosts(host: Seq<char>, message: Seq<char>)
    ensures
        invalid_host(host, message) == "invalid hostname "@ + debug_text(host) + ": "@ + message,
{
}

/// IPv4 addresses are asked for as records of type 1, IPv6 addresses as records
/// of type 28, and a server has three seconds.
pub proof fn law_address_records(bytes: Seq<u8>)
    ensures
        record_type(false) == 1,
        record_type(true) == 28,
        QUERY_TIMEOUT_SECS == 3,
        bytes.len() == 4 ==> address_of(bytes) == Ip::V4(bytes[0], bytes[1], bytes[2], bytes[3]),
        bytes.len() == 16 ==> (address_of(bytes) matches Ip::V6(a, b, c, d, e, f, g, h) && {
            &&& a / 256 == bytes[0] && a % 256 == bytes[1]
            &&& b / 256 == bytes[2] && b % 256 == bytes[3]
            &&& c / 256 == bytes[4] && c % 256 == bytes[5]
            &&& d / 256 == bytes[6] && d % 256 == bytes[7]
            &&& e / 256 == bytes[8] && e % 256 == bytes[9]
            &&& f / 256 == bytes[10] && f % 256 == bytes[11]
            &&& g / 256 == bytes[12] && g % 256 == bytes[13]
            &&& h / 256 == bytes[14] && h % 256 == bytes[15]
        }),
{
}

/// Answers count where they are addresses: each is taken, in order, and its TTL
/// counts where it is the smallest so far; others change nothing.
pub proof fn law_answers_that_count(answers: Seq<Answer>, answer: Answer)
    ensures
        addresses(Seq::empty()) == Seq::<Ip>::empty(),
        address_ttl(Seq::empty()) == u32::MAX,
        answer.0 is None ==> addresses(answers.push(answer)) == addresses(answers) && address_ttl(
            answers.push(answer),
        ) == address_ttl(answers),
        answer.0 matches Some(bytes) ==> {
            &&& addresses(answers.push(answer)) == addresses(answers).push(address_of(bytes))
            &&& address_ttl(answers.push(answer)) <= address_ttl(answers)
            &&& address_ttl(answers.push(answer)) <= answer.1
            &&& address_ttl(answers.push(answer)) == address_ttl(answers) || address_ttl(
                answers.push(answer),
            ) == answer.1
        },
{
    assert(answers.push(answer).drop_last() =~= answers);
}

/// Nothing is remembered before anything was resolved; afterwards the addresses
/// come back until their seconds are over.
pub proof fn law_resolved_hosts_run_out(
    host: Seq<char>,
    stack: IpStack,
    ips: Seq<Ip>,
    secs: u64,
    stored_at: u64,
    now: u64,
)
    requires
        stored_at + secs * 1_000_000_000 <= u64::MAX,
    ensures
        remembered(Seq::empty(), host, stack, now) is None,
        ({
            let all = with_entry(Seq::empty(), host, stack, ips, later(stored_at, secs));
            &&& now < stored_at + secs * 1_000_000_000 ==> remembered(all, host, stack, now) == Some(
                ips,
            )
            &&& now >= stored_at + secs * 1_000_000_000 ==> remembered(all, host, stack, now) is None
        }),
{
    law_remembered_until_expiry(
        Seq::empty(),
        host,
        stack,
        ips,
        later(stored_at, secs),
        host,
        stack,
        now,
    );
}

/// So many seconds later is so many times 1,000,000,000 nanoseconds later, as far
/// as there is such a time.
pub proof fn law_seconds_later(now: u64, secs: u64)
    ensures
        now + secs * 1_000_000_000 <= u64::MAX ==> later(now, secs) - now == secs * 1_000_000_000,
        now + secs * 1_000_000_000 > u64::MAX ==> later(now, secs) == u64::MAX,
{
}

// ---------- connections ----------

/// A failure in a row after `n` others rests the upstream for 2, 4, 8, 16 and
/// then always 32 seconds from now; a failure is one more.
pub proof fn law_failures_rest_the_upstream<E>(slot: Slot<E>, now: u64)
    requires
        slot.connect_failures < u32::MAX,
        now + 32_000_000_000 <= u64::MAX,
    ensures
        ({
            let after = slot.backed_off(now);
            let rest = after.cooldown_until->0 - now;
            &&& after.connect_failures == slot.connect_failures + 1
            &&& after.exchange == slot.exchange
            &&& after.generation == slot.generation
            &&& after.cooldown_until is Some
            &&& slot.connect_failures == 0 ==> rest == 2_000_000_000
            &&& slot.connect_failures == 1 ==> rest == 4_000_000_000
            &&& slot.connect_failures == 2 ==> rest == 8_000_000_000
            &&& slot.connect_failures == 3 ==> rest == 16_000_000_000
            &&& slot.connect_failures >= 4 ==> rest == 32_000_000_000
        }),
{
}

/// A connection in the slot is used, whatever was before; without one an upstream
/// rests until its time has come, and is dialed from then on: at its known
/// address, or once its host was resolved, afresh after failures.
pub proof fn law_connections_are_used_rested_or_dialed<E: Clone>(
    slot: Slot<E>,
    known: Option<Ip>,
    now: u64,
    r: Acquired<E>,
)
    requires
        is_acquired(slot, known, now, r),
    ensures
        slot.exchange is Some ==> (r matches Acquired::Reuse { generation, .. } && generation
            == slot.generation),
        slot.exchange is None ==> (slot.cooldown_until matches Some(until) ==> now < until ==> (
        r matches Acquired::Cooldown(left) && now + left == until)),
        slot.exchange is None && (slot.cooldown_until matches Some(until) ==> until <= now) ==> {
            &&& known matches Some(ip) ==> r == Acquired::<E>::Dial(ip)
            &&& known is None ==> (r matches Acquired::Resolve { afresh } && afresh == (
            slot.connect_failures > 0))
        },
{
}

/// A redial is worth it where more than a quarter of a second is left, and always
/// without a deadline; a connection attempt takes five seconds at most.
pub proof fn law_redial_budget(deadline: Option<u64>, now: u64)
    ensures
        deadline is None ==> has_budget(deadline, now),
        deadline matches Some(at) ==> has_budget(deadline, now) == (at > now + 250_000_000),
        CONNECT_TIMEOUT == 5_000_000_000,
{
}

/// What a query on a connection comes to: an answer is handed on as it is, and
/// changes nothing; the deadline and a failed transport are reported; a stale
/// connection is dropped without rest and dialed again while there is time, and
/// every other failure on the current connection drops it and rests the upstream.
pub proof fn law_outcomes_of_a_query<E>(
    slot: Slot<E>,
    lease: Lease,
    retried: bool,
    sent: Sent,
    deadline: Option<u64>,
    now: u64,
    verdict: Verdict,
)
    requires
        is_verdict(slot, lease, retried, sent, deadline, now, verdict),
    ensures
        ({
            let after = slot_after(slot, lease, retried, sent, deadline, now);
            let current = slot.generation == lease.generation && slot.exchange is Some;
            let time = deadline matches Some(at) ==> at > now + 250_000_000;
            let redials = sent is Transport && current && lease.reused && !retried && time;
            &&& sent matches Sent::Answer(bytes) ==> after == slot && (verdict matches
                Verdict::Finished(Ok(got)) && got@ == bytes@)
            &&& sent is Deadline ==> (verdict matches Verdict::Finished(Err(m)) && m@
                == "no answer within the deadline"@)
            &&& sent matches Sent::Transport(error) ==> {
                &&& redials ==> (verdict matches Verdict::Redial(m) && m@ == error@)
                &&& !redials ==> (verdict matches Verdict::Finished(Err(m)) && m@ == error@)
            }
            &&& !current ==> after == slot
            &&& redials ==> after.exchange is None && after.connect_failures
                == slot.connect_failures && after.cooldown_until == slot.cooldown_until
            &&& current && !redials && !(sent is Answer) ==> after.exchange is None
                && after.cooldown_until is Some && (slot.connect_failures < u32::MAX
                ==> after.connect_failures == slot.connect_failures + 1)
        }),
{
}

/// A stored connection is the newest, and ends all rest.
pub proof fn law_stored_connections<E>(slot: Slot<E>, exchange: E)
    ensures
        slot.stored(exchange).exchange == Some(exchange),
        slot.stored(exchange).connect_failures == 0,
        slot.stored(exchange).cooldown_until is None,
        slot.stored(exchange).generation != slot.generation,
        slot.generation < u64::MAX ==> slot.stored(exchange).generation == slot.generation + 1,
{
}

/// An address leads back to us where it is a listener of ours, or a loopback
/// address with the port of one.
pub proof fn law_our_own_addresses(ip: Ip, port: u16, deny: Seq<Endpoint>)
    ensures
        is_own(ip, port, deny) <==> exists|i: int|
            0 <= i < deny.len() && (#[trigger] deny[i]).port == port && (deny[i].ip == ip
                || ip.spec_is_loopback()),
{
    if deny.contains(Endpoint { ip, port }) {
        let i = choose|i: int| 0 <= i < deny.len() && deny[i] == (Endpoint { ip, port });
        assert(deny[i].port == port);
    }
    if exists|i: int|
        0 <= i < deny.len() && (#[trigger] deny[i]).port == port && (deny[i].ip == ip
            || ip.spec_is_loopback()) {
        let i = choose|i: int|
            0 <= i < deny.len() && (#[trigger] deny[i]).port == port && (deny[i].ip == ip
                || ip.spec_is_loopback());
        if deny[i].ip == ip {
            assert(deny[i] == (Endpoint { ip, port }));
            assert(deny.contains(Endpoint { ip, port }));
        }
    }
}

/// An upstream is refused where its known address leads back to us, and the first
/// such upstream is named; one without a known address never is.
pub proof fn law_upstreams_that_lead_back(ups: Seq<UpstreamView>, listeners: Seq<Endpoint>, i: int)
    requires
        0 <= i,
    ensures
        match first_self_loop(ups, listeners, i) {
            Some(k) => i <= k < ups.len() && (ups[k].bootstrap_ip matches Some(ip) && is_own(
                ip,
                ups[k].port,
                listeners,
            )) && forall|j: int|
                i <= j < k ==> ((#[trigger] ups[j]).bootstrap_ip matches Some(ip) ==> !is_own(
                    ip,
                    ups[j].port,
                    listeners,
                )),
            None => forall|j: int|
                i <= j < ups.len() ==> ((#[trigger] ups[j]).bootstrap_ip matches Some(ip)
                    ==> !is_own(ip, ups[j].port, listeners)),
        },
    decreases ups.len() - i,
{
    if i < ups.len() {
        law_upstreams_that_lead_back(ups, listeners, i + 1);
    }
}

/// How addresses that lead back to us are reported.
pub proof fn law_loops_are_reported(up: UpstreamView, ip: Ip, port: u16)
    ensures
        self_loop_message(up, ip) == "upstream "@ + up.name + ": endpoint "@ + ip_text(ip) + ":"@
            + decimal(up.port as nat) + " points at our own listener"@,
        own_message(ip, port) == endpoint_text(Endpoint { ip, port })
            + " points back at our own listener"@,
{
}

/// Dialing passes over the addresses that lead back to us, and over no others.
pub proof fn law_dialing_skips_only_our_own(d: DialingView, deny: Seq<Endpoint>)
    requires
        d.wf(),
    ensures
        ({
            let after = d.skipped(deny);
            &&& after.ips == d.ips
            &&& after.port == d.port
            &&& d.at <= after.at <= d.ips.len()
            &&& forall|k: int| d.at <= k < after.at ==> is_own(#[trigger] d.ips[k], d.port, deny)
            &&& after.at < d.ips.len() ==> !is_own(d.ips[after.at], d.port, deny)
            &&& after.at == d.at ==> after.last_err == d.last_err
        }),
    decreases d.ips.len() - d.at,
{
    if d.at < d.ips.len() && is_own(d.ips[d.at], d.port, deny) {
        let next = DialingView {
            at: d.at + 1,
            last_err: own_message(d.ips[d.at], d.port),
            ..d
        };
        law_dialing_skips_only_our_own(next, deny);
    }
}

// ---------- the manager ----------

/// A timeout of 0 is none; any other runs out so many milliseconds from now.
pub proof fn law_deadlines(timeout_ms: u64, now: u64)
    ensures
        deadline_of(0, now) is None,
        timeout_ms > 0 && now + timeout_ms * 1_000_000 <= u64::MAX ==> (deadline_of(
            timeout_ms,
            now,
        ) matches Some(at) && at - now == timeout_ms * 1_000_000),
        timeout_ms > 0 ==> (deadline_of(timeout_ms, now) matches Some(at) && at >= now),
        FALLBACK_TIMEOUT_SECS == 2,
{
}

/// What goes over an encrypted transport: a query with the opcode QUERY, one
/// question and no records or signatures; and nothing else.
pub proof fn law_encrypted_shape(content: Content)
    ensures
        is_safe(content) <==> content.0 && content.1 && content.2 == 1 && content.3 == 0
            && content.4 == 0 && content.5 == 0 && content.6.len() == 0,
{
    if content.6.len() == 0 {
        assert(content.6 =~= Seq::<Answer>::empty());
    }
}

/// A client gets a response that echoes its question, with its own ID in front
/// and otherwise as it came; and no other.
pub proof fn law_clients_get_what_answers_them(query: Seq<u8>, response: Seq<u8>)
    requires
        query.len() >= 2,
        response.len() >= 2,
    ensures
        accepted(query, response) is Some <==> response_check(query, response) is Ok,
        accepted(query, response) matches Some(out) ==> out.take(2) == query.take(2) && out.skip(2)
            == response.skip(2),
{
    if let Some(out) = accepted(query, response) {
        assert(out.take(2) =~= query.take(2));
        assert(out.skip(2) =~= response.skip(2));
    }
}

// ---------- plain DNS ----------

/// A datagram is the reply to a query where it has a whole header, the ID of the
/// query, and answers its question.
pub proof fn law_replies_have_id_and_question(query: Seq<u8>, datagram: Seq<u8>)
    requires
        query.len() >= 2,
    ensures
        is_reply(query, datagram) <==> datagram.len() >= 12 && datagram.take(2) == query.take(2)
            && response_check(query, datagram) is Ok,
{
    if datagram.len() >= 12 {
        assert(datagram.take(2)[0] == datagram[0] && datagram.take(2)[1] == datagram[1]);
        assert(query.take(2)[0] == query[0] && query.take(2)[1] == query[1]);
        if query[0] == datagram[0] && query[1] == datagram[1] {
            assert(datagram.take(2) =~= query.take(2));
        }
    }
}

/// What asking a server comes to: an error over UDP is reported; the answer over
/// UDP is the answer, unless it was truncated, TCP is wanted, and TCP brings one.
pub proof fn law_plain_answers(facts: LegacyFacts, step: LegacyStep)
    requires
        is_legacy_step(facts, step),
    ensures
        facts.udp is None ==> step is AskUdp,
        facts.udp matches Some(Err(e)) ==> (step matches LegacyStep::Finished(Err(m)) && m@ == e@),
        facts.udp matches Some(Ok(response)) ==> {
            let cut = response@.len() >= 12 && (response@[2] / 2) % 2 == 1;
            &&& !cut || !facts.tcp_retry ==> (step matches LegacyStep::Finished(Ok(got)) && got@
                == response@)
            &&& cut && facts.tcp_retry && facts.tcp is None ==> step is AskTcp
            &&& cut && facts.tcp_retry ==> (facts.tcp matches Some(Ok(full)) ==> (step matches
                LegacyStep::Finished(Ok(got)) && got@ == full@))
            &&& cut && facts.tcp_retry && (facts.tcp matches Some(Err(_))) ==> (step matches
                LegacyStep::Finished(Ok(got)) && got@ == response@)
        },
{
    if let Some(Ok(response)) = facts.udp {
        if response@.len() >= 12 {
            let flags = response@[2];
            assert(flags & 0x02 != 0 <==> (flags / 2) % 2 == 1) by (bit_vector);
        }
    }
}

} // verus!
