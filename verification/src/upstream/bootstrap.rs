//! Hostname resolution that never touches the system resolver — once we own
//! the OS DNS, getaddrinfo would loop straight back into our own listener.
//! Queries go as plain UDP directly to hardcoded public bootstrap servers.

use crate::cache::NANOS_PER_SEC;
use crate::config::IpStack;
use crate::ip::Ip;
use crate::text::{debug_text, join3, lowered, same_text, show_debug, to_lower};
use crate::upstream::message::{
    addresses_complete, answer_view, answer_views, check_name, hickory_content, hickory_name,
    hickory_query, is_recursive_query, read_message, write_query, Answer,
};
use vstd::prelude::*;
use vstd::slice::slice_to_vec;
use vstd::string::*;

verus! {

pub const QUERY_TIMEOUT_SECS: u64 = 3;

pub const MIN_TTL_SECS: u64 = 60;

pub const MAX_TTL_SECS: u64 = 86_400;

/// The bootstrap servers: 1.1.1.1 and 8.8.8.8.
pub open spec fn servers() -> Seq<Ip> {
    seq![Ip::V4(1, 1, 1, 1), Ip::V4(8, 8, 8, 8)]
}

// ---------- messages ----------

/// Record type A.
pub const TYPE_A: u16 = 1;

/// Record type AAAA.
pub const TYPE_AAAA: u16 = 28;

/// The type of the address records of a family.
pub open spec fn record_type(v6: bool) -> u16 {
    if v6 {
        TYPE_AAAA
    } else {
        TYPE_A
    }
}

/// The bytes to send to a bootstrap server.
pub fn query_bytes(id: u16, host: &str, v6: bool) -> (r: Result<Vec<u8>, String>)
    ensures
        match hickory_query(id, host@, record_type(v6)) {
            Ok(bytes) => r matches Ok(got) && got@ == bytes,
            Err(message) => r matches Err(got) && got@ == message,
        },
        r matches Ok(got) ==> is_recursive_query(id, record_type(v6), got@),
{
    write_query(
        id,
        host,
        if v6 {
            TYPE_AAAA
        } else {
            TYPE_A
        },
    )
}

/// The address with these bytes.
pub open spec fn address_of(b: Seq<u8>) -> Ip {
    if b.len() == 4 {
        Ip::V4(b[0], b[1], b[2], b[3])
    } else {
        Ip::V6(
            (b[0] * 256 + b[1]) as u16,
            (b[2] * 256 + b[3]) as u16,
            (b[4] * 256 + b[5]) as u16,
            (b[6] * 256 + b[7]) as u16,
            (b[8] * 256 + b[9]) as u16,
            (b[10] * 256 + b[11]) as u16,
            (b[12] * 256 + b[13]) as u16,
            (b[14] * 256 + b[15]) as u16,
        )
    }
}

fn ip_of_bytes(b: &Vec<u8>) -> (ip: Ip)
    requires
        b@.len() == 4 || b@.len() == 16,
    ensures
        ip == address_of(b@),
{
    if b.len() == 4 {
        Ip::V4(b[0], b[1], b[2], b[3])
    } else {
        Ip::V6(
            b[0] as u16 * 256 + b[1] as u16,
            b[2] as u16 * 256 + b[3] as u16,
            b[4] as u16 * 256 + b[5] as u16,
            b[6] as u16 * 256 + b[7] as u16,
            b[8] as u16 * 256 + b[9] as u16,
            b[10] as u16 * 256 + b[11] as u16,
            b[12] as u16 * 256 + b[13] as u16,
            b[14] as u16 * 256 + b[15] as u16,
        )
    }
}

/// The addresses among the answers.
pub open spec fn addresses(answers: Seq<Answer>) -> Seq<Ip>
    decreases answers.len(),
{
    if answers.len() == 0 {
        Seq::empty()
    } else {
        match answers.last().0 {
            Some(bytes) => addresses(answers.drop_last()).push(address_of(bytes)),
            None => addresses(answers.drop_last()),
        }
    }
}

/// The smallest TTL of an address among the answers, the largest number where
/// there is no address.
pub open spec fn address_ttl(answers: Seq<Answer>) -> u32
    decreases answers.len(),
{
    if answers.len() == 0 {
        u32::MAX
    } else {
        let before = address_ttl(answers.drop_last());
        if answers.last().0 is Some && answers.last().1 < before {
            answers.last().1
        } else {
            before
        }
    }
}

/// The addresses in a list of answers, and for how long they hold. Links of a
/// CNAME chain and the like are passed over.
pub fn collect_answers(answers: &Vec<(Option<Vec<u8>>, u32)>) -> (r: (Vec<Ip>, u32))
    requires
        addresses_complete(answers@),
    ensures
        r.0@ == addresses(answer_views(answers@)),
        r.1 == address_ttl(answer_views(answers@)),
{
    let ghost all = answer_views(answers@);
    let mut ips: Vec<Ip> = Vec::new();
    let mut ttl: u32 = u32::MAX;
    let mut i: usize = 0;
    while i < answers.len()
        invariant
            i <= answers@.len(),
            all == answer_views(answers@),
            addresses_complete(answers@),
            ips@ == addresses(all.take(i as int)),
            ttl == address_ttl(all.take(i as int)),
        decreases answers@.len() - i,
    {
        proof {
            assert(all.take(i + 1).drop_last() =~= all.take(i as int));
            assert(all[i as int] == answer_view(answers@[i as int]));
        }
        if let Some(bytes) = &answers[i].0 {
            ips.push(ip_of_bytes(bytes));
            if answers[i].1 < ttl {
                ttl = answers[i].1;
            }
        }
        i = i + 1;
    }
    assert(all.take(i as int) =~= all);
    (ips, ttl)
}

/// The addresses in a response, and for how long they hold.
pub fn read_response(response: &[u8]) -> (r: Result<(Vec<Ip>, u32), String>)
    ensures
        match hickory_content(response@) {
            Ok(content) => r matches Ok((ips, ttl)) && ips@ == addresses(content.6) && ttl
                == address_ttl(content.6),
            Err(message) => r matches Err(got) && got@ == message,
        },
{
    match read_message(response) {
        Ok(parsed) => Ok(collect_answers(&parsed.answers)),
        Err(message) => Err(message),
    }
}

// ---------- asking ----------

/// What is asked for, first to last.
pub open spec fn families(stack: IpStack) -> Seq<bool> {
    match stack {
        IpStack::V4 => seq![false],
        IpStack::V6 => seq![true],
        IpStack::Both => seq![false, true],
    }
}

/// The addresses of one family, in order.
pub open spec fn of_family(ips: Seq<Ip>, v4: bool) -> Seq<Ip>
    decreases ips.len(),
{
    if ips.len() == 0 {
        Seq::empty()
    } else if ips.last().spec_is_v4() == v4 {
        of_family(ips.drop_last(), v4).push(ips.last())
    } else {
        of_family(ips.drop_last(), v4)
    }
}

/// The addresses without repetitions that follow each other.
pub open spec fn deduped(ips: Seq<Ip>) -> Seq<Ip>
    decreases ips.len(),
{
    if ips.len() == 0 {
        Seq::empty()
    } else {
        let before = deduped(ips.drop_last());
        if ips.len() > 1 && ips[ips.len() - 2] == ips.last() {
            before
        } else {
            before.push(ips.last())
        }
    }
}

/// The order in which addresses are dialed: IPv4 first.
pub open spec fn dial_order(ips: Seq<Ip>) -> Seq<Ip> {
    deduped(of_family(ips, true) + of_family(ips, false))
}

/// For how many seconds an answer is kept.
pub open spec fn kept_for(ttl: u64) -> u64 {
    if ttl < MIN_TTL_SECS {
        MIN_TTL_SECS
    } else if ttl > MAX_TTL_SECS {
        MAX_TTL_SECS
    } else {
        ttl
    }
}

fn select_family(ips: &Vec<Ip>, v4: bool) -> (out: Vec<Ip>)
    ensures
        out@ == of_family(ips@, v4),
{
    let mut out: Vec<Ip> = Vec::new();
    let mut i: usize = 0;
    while i < ips.len()
        invariant
            i <= ips@.len(),
            out@ == of_family(ips@.take(i as int), v4),
        decreases ips@.len() - i,
    {
        proof {
            assert(ips@.take(i + 1).drop_last() =~= ips@.take(i as int));
        }
        if ips[i].is_v4() == v4 {
            out.push(ips[i]);
        }
        i = i + 1;
    }
    assert(ips@.take(i as int) =~= ips@);
    out
}

fn dedup(ips: &Vec<Ip>) -> (out: Vec<Ip>)
    ensures
        out@ == deduped(ips@),
{
    let mut out: Vec<Ip> = Vec::new();
    let mut i: usize = 0;
    while i < ips.len()
        invariant
            i <= ips@.len(),
            out@ == deduped(ips@.take(i as int)),
        decreases ips@.len() - i,
    {
        proof {
            assert(ips@.take(i + 1).drop_last() =~= ips@.take(i as int));
            if i > 0 {
                assert(ips@.take(i + 1)[i - 1] == ips@[i - 1]);
            }
        }
        if !(i > 0 && ips[i - 1] == ips[i]) {
            out.push(ips[i]);
        }
        i = i + 1;
    }
    assert(ips@.take(i as int) =~= ips@);
    out
}

fn ordered_for_dialing(ips: &Vec<Ip>) -> (out: Vec<Ip>)
    ensures
        out@ == dial_order(ips@),
{
    let mut v4: Vec<Ip> = select_family(ips, true);
    let mut v6: Vec<Ip> = select_family(ips, false);
    v4.append(&mut v6);
    dedup(&v4)
}

/// A resolution under way: the servers before `server` were asked everything,
/// this one the first `asked` of the families.
pub struct Lookup {
    pub host: String,
    pub stack: IpStack,
    pub server: usize,
    pub asked: usize,
    pub ips: Vec<Ip>,
    pub min_ttl: u64,
    pub last_err: String,
}

/// `Lookup` as plain values.
#[verifier::ext_equal]
pub struct LookupView {
    pub host: Seq<char>,
    pub stack: IpStack,
    pub server: int,
    pub asked: int,
    pub ips: Seq<Ip>,
    pub min_ttl: u64,
    pub last_err: Seq<char>,
}

impl View for Lookup {
    type V = LookupView;

    open spec fn view(&self) -> LookupView {
        LookupView {
            host: self.host@,
            stack: self.stack,
            server: self.server as int,
            asked: self.asked as int,
            ips: self.ips@,
            min_ttl: self.min_ttl,
            last_err: self.last_err@,
        }
    }
}

/// What a resolution does next.
pub enum LookupStep {
    /// Ask a server for the addresses of one family.
    Ask { server: Ip, v6: bool },
    /// The addresses in the order in which they are dialed, and for how many
    /// seconds they are kept.
    Finished(Result<(Vec<Ip>, u64), String>),
}

impl LookupView {
    pub open spec fn wf(self) -> bool {
        &&& 0 <= self.server <= servers().len()
        &&& self.server < servers().len() ==> 0 <= self.asked < families(self.stack).len()
    }

    /// Whether the questions have come to an end: all servers were asked, or one
    /// of them has answered.
    pub open spec fn is_over(self) -> bool {
        self.server >= servers().len() || self.asked == 0 && self.ips.len() > 0
    }

    /// How things stand after an answer or an error.
    pub open spec fn after(self, reply: Result<(Seq<Ip>, u32), Seq<char>>) -> LookupView {
        let (server, asked) = if self.asked + 1 < families(self.stack).len() {
            (self.server, self.asked + 1)
        } else {
            (self.server + 1, 0)
        };
        match reply {
            Ok((ips, ttl)) => LookupView {
                server,
                asked,
                ips: self.ips + ips,
                min_ttl: if (ttl as u64) < self.min_ttl {
                    ttl as u64
                } else {
                    self.min_ttl
                },
                ..self
            },
            Err(message) => LookupView { server, asked, last_err: message, ..self },
        }
    }
}

/// Whether `step` is what a resolution does next: the first server that answers
/// wins.
pub open spec fn is_lookup_step(l: LookupView, step: LookupStep) -> bool {
    if !l.is_over() {
        step == (LookupStep::Ask {
            server: servers()[l.server],
            v6: families(l.stack)[l.asked],
        })
    } else if l.ips.len() == 0 {
        step matches LookupStep::Finished(Err(m)) && m@ == "bootstrap failed for "@ + l.host
            + ": "@ + l.last_err
    } else {
        step matches LookupStep::Finished(Ok((ips, ttl))) && ips@ == dial_order(l.ips) && ttl
            == kept_for(l.min_ttl)
    }
}

/// A reply with its parts as plain values.
pub open spec fn reply_view(r: Result<(Vec<Ip>, u32), String>) -> Result<
    (Seq<Ip>, u32),
    Seq<char>,
> {
    match r {
        Ok((ips, ttl)) => Ok((ips@, ttl)),
        Err(message) => Err(message@),
    }
}

/// A resolution that has not asked anybody yet.
pub open spec fn started(host: Seq<char>, stack: IpStack) -> LookupView {
    LookupView {
        host,
        stack,
        server: 0,
        asked: 0,
        ips: Seq::empty(),
        min_ttl: MAX_TTL_SECS,
        last_err: "no bootstrap servers"@,
    }
}

/// How a hostname that cannot be asked for is refused.
pub open spec fn invalid_host(host: Seq<char>, message: Seq<char>) -> Seq<char> {
    "invalid hostname "@ + debug_text(host) + ": "@ + message
}

/// How a host gets its addresses.
pub enum Resolution {
    Known(Vec<Ip>),
    Begun(Lookup),
}

impl Lookup {
    /// Start the resolution of a hostname.
    pub fn begin(host: &str, stack: IpStack) -> (r: Result<Self, String>)
        ensures
            match hickory_name(host@) {
                Ok(()) => r matches Ok(lookup) && lookup@.wf() && lookup@ == started(host@, stack),
                Err(message) => r matches Err(got) && got@ == invalid_host(host@, message),
            },
    {
        if let Err(message) = check_name(host) {
            let mut text: String = join3("invalid hostname ", show_debug(host).as_str(), ": ");
            text.append(message.as_str());
            return Err(text);
        }
        Ok(
            Lookup {
                host: host.to_owned(),
                stack,
                server: 0,
                asked: 0,
                ips: Vec::new(),
                min_ttl: MAX_TTL_SECS,
                last_err: "no bootstrap servers".to_owned(),
            },
        )
    }

    pub fn next(&self) -> (step: LookupStep)
        requires
            self@.wf(),
        ensures
            is_lookup_step(self@, step),
    {
        if self.server < 2 && !(self.asked == 0 && self.ips.len() > 0) {
            let server: Ip = if self.server == 0 {
                Ip::V4(1, 1, 1, 1)
            } else {
                Ip::V4(8, 8, 8, 8)
            };
            let v6: bool = match self.stack {
                IpStack::V4 => false,
                IpStack::V6 => true,
                IpStack::Both => self.asked == 1,
            };
            LookupStep::Ask { server, v6 }
        } else if self.ips.len() == 0 {
            let mut text: String = join3("bootstrap failed for ", self.host.as_str(), ": ");
            text.append(self.last_err.as_str());
            LookupStep::Finished(Err(text))
        } else {
            let ttl: u64 = if self.min_ttl < MIN_TTL_SECS {
                MIN_TTL_SECS
            } else if self.min_ttl > MAX_TTL_SECS {
                MAX_TTL_SECS
            } else {
                self.min_ttl
            };
            LookupStep::Finished(Ok((ordered_for_dialing(&self.ips), ttl)))
        }
    }

    /// Note what became of the question that came next.
    pub fn report(self, reply: Result<(Vec<Ip>, u32), String>) -> (t: Self)
        requires
            self@.wf(),
            !self@.is_over(),
        ensures
            t@ == self@.after(reply_view(reply)),
            t@.wf(),
    {
        let mut t: Self = self;
        let both: bool = match t.stack {
            IpStack::Both => true,
            _ => false,
        };
        if both && t.asked == 0 {
            t.asked = 1;
        } else {
            t.server = t.server + 1;
            t.asked = 0;
        }
        match reply {
            Ok((ips, ttl)) => {
                let mut more: Vec<Ip> = ips;
                t.ips.append(&mut more);
                if (ttl as u64) < t.min_ttl {
                    t.min_ttl = ttl as u64;
                }
            },
            Err(message) => {
                t.last_err = message;
            },
        }
        t
    }
}

// ---------- what is remembered ----------

/// A resolved host.
pub struct Resolved {
    /// In lowercase.
    pub host: String,
    pub stack: IpStack,
    pub ips: Vec<Ip>,
    /// In nanoseconds of the monotonic clock.
    pub expires: u64,
}

/// `Resolved` as plain values: host, stack, addresses and expiry.
pub type ResolvedView = (Seq<char>, IpStack, Seq<Ip>, u64);

impl View for Resolved {
    type V = ResolvedView;

    open spec fn view(&self) -> ResolvedView {
        (self.host@, self.stack, self.ips@, self.expires)
    }
}

pub open spec fn resolved_views(v: Seq<Resolved>) -> Seq<ResolvedView> {
    v.map_values(|r: Resolved| r@)
}

/// Where the entry for a host is, at or after `i`.
pub open spec fn entry_at(v: Seq<ResolvedView>, host: Seq<char>, stack: IpStack, i: int) -> Option<
    int,
>
    decreases v.len() - i,
{
    if i >= v.len() {
        None
    } else if v[i].0 == host && v[i].1 == stack {
        Some(i)
    } else {
        entry_at(v, host, stack, i + 1)
    }
}

pub proof fn lemma_entry_at(v: Seq<ResolvedView>, host: Seq<char>, stack: IpStack, i: int)
    requires
        0 <= i,
    ensures
        match entry_at(v, host, stack, i) {
            Some(k) => i <= k < v.len() && v[k].0 == host && v[k].1 == stack,
            None => forall|k: int| i <= k < v.len() ==> (#[trigger] v[k]).0 != host || v[k].1
                != stack,
        },
    decreases v.len() - i,
{
    if i < v.len() && !(v[i].0 == host && v[i].1 == stack) {
        lemma_entry_at(v, host, stack, i + 1);
    }
}

/// The entries of other hosts.
pub open spec fn without_host(v: Seq<ResolvedView>, host: Seq<char>) -> Seq<ResolvedView>
    decreases v.len(),
{
    if v.len() == 0 {
        Seq::empty()
    } else if v.last().0 == host {
        without_host(v.drop_last(), host)
    } else {
        without_host(v.drop_last(), host).push(v.last())
    }
}

/// What is remembered of a host.
pub open spec fn remembered(
    v: Seq<ResolvedView>,
    host: Seq<char>,
    stack: IpStack,
    now: u64,
) -> Option<Seq<Ip>> {
    match entry_at(v, lowered(host), stack, 0) {
        Some(k) => if now < v[k].3 {
            Some(v[k].2)
        } else {
            None
        },
        None => None,
    }
}

/// The entries with one for a host, in place of an earlier one.
pub open spec fn with_entry(
    v: Seq<ResolvedView>,
    host: Seq<char>,
    stack: IpStack,
    ips: Seq<Ip>,
    expires: u64,
) -> Seq<ResolvedView> {
    match entry_at(v, lowered(host), stack, 0) {
        Some(k) => v.update(k, (lowered(host), stack, ips, expires)),
        None => v.push((lowered(host), stack, ips, expires)),
    }
}

/// When something that is kept for `secs` seconds runs out.
pub open spec fn later(now: u64, secs: u64) -> u64 {
    if now + secs * NANOS_PER_SEC > u64::MAX {
        u64::MAX
    } else {
        (now + secs * NANOS_PER_SEC) as u64
    }
}

/// Add seconds to a time, up to the last time there is.
pub fn add_seconds(now: u64, secs: u64) -> (r: u64)
    requires
        secs <= MAX_TTL_SECS,
    ensures
        r == later(now, secs),
{
    let nanos: u64 = secs * NANOS_PER_SEC;
    if now > u64::MAX - nanos {
        u64::MAX
    } else {
        now + nanos
    }
}

/// The hosts that were resolved, each under its name in lowercase and the
/// families it was resolved to. No two entries have the same key.
pub struct Bootstrap {
    pub cache: Vec<Resolved>,
}

impl View for Bootstrap {
    type V = Seq<ResolvedView>;

    open spec fn view(&self) -> Seq<ResolvedView> {
        resolved_views(self.cache@)
    }
}

pub open spec fn one_per_key(v: Seq<ResolvedView>) -> bool {
    forall|i: int, j: int|
        0 <= i < j < v.len() ==> (#[trigger] v[i]).0 != (#[trigger] v[j]).0 || v[i].1 != v[j].1
}

impl Bootstrap {
    pub open spec fn wf(&self) -> bool {
        one_per_key(self@)
    }

    pub fn new() -> (b: Self)
        ensures
            b@ == Seq::<ResolvedView>::empty(),
            b.wf(),
    {
        let b: Self = Bootstrap { cache: Vec::new() };
        assert(b@ =~= Seq::<ResolvedView>::empty());
        b
    }

    fn find(&self, host: &str, stack: IpStack) -> (r: Option<usize>)
        ensures
            match entry_at(self@, host@, stack, 0) {
                Some(k) => r matches Some(i) && i == k && i < self.cache@.len(),
                None => r is None,
            },
    {
        let mut i: usize = 0;
        while i < self.cache.len()
            invariant
                i <= self.cache@.len(),
                entry_at(self@, host@, stack, 0) == entry_at(self@, host@, stack, i as int),
            decreases self.cache@.len() - i,
        {
            assert(self@[i as int] == self.cache@[i as int]@);
            if self.cache[i].stack == stack && same_text(self.cache[i].host.as_str(), host) {
                return Some(i);
            }
            i = i + 1;
        }
        None
    }

    /// The addresses of a host, where they are remembered and have not run out.
    pub fn lookup(&self, host: &str, stack: IpStack, now: u64) -> (r: Option<Vec<Ip>>)
        ensures
            match remembered(self@, host@, stack, now) {
                Some(known) => r matches Some(ips) && ips@ == known,
                None => r is None,
            },
    {
        let key: String = to_lower(host);
        match self.find(key.as_str(), stack) {
            Some(i) => {
                assert(self@[i as int] == self.cache@[i as int]@);
                if now < self.cache[i].expires {
                    Some(slice_to_vec(self.cache[i].ips.as_slice()))
                } else {
                    None
                }
            },
            None => None,
        }
    }

    /// Resolve a host: from memory, or by asking.
    pub fn resolve(&self, host: &str, stack: IpStack, now: u64) -> (r: Result<Resolution, String>)
        ensures
            match remembered(self@, host@, stack, now) {
                Some(known) => r matches Ok(Resolution::Known(ips)) && ips@ == known,
                None => match hickory_name(host@) {
                    Ok(()) => r matches Ok(Resolution::Begun(lookup)) && lookup@.wf() && lookup@
                        == started(host@, stack),
                    Err(message) => r matches Err(got) && got@ == invalid_host(host@, message),
                },
            },
    {
        if let Some(ips) = self.lookup(host, stack, now) {
            return Ok(Resolution::Known(ips));
        }
        match Lookup::begin(host, stack) {
            Ok(lookup) => Ok(Resolution::Begun(lookup)),
            Err(message) => Err(message),
        }
    }

    /// Remember the addresses of a host.
    pub fn remember(&mut self, host: &str, stack: IpStack, ips: &Vec<Ip>, ttl: u64, now: u64)
        requires
            old(self).wf(),
            ttl <= MAX_TTL_SECS,
        ensures
            final(self).wf(),
            final(self)@ == with_entry(old(self)@, host@, stack, ips@, later(now, ttl)),
    {
        let key: String = to_lower(host);
        let entry: Resolved = Resolved {
            host: key.clone(),
            stack,
            ips: slice_to_vec(ips.as_slice()),
            expires: add_seconds(now, ttl),
        };
        let ghost before = self@;
        proof {
            lemma_entry_at(before, lowered(host@), stack, 0);
        }
        match self.find(key.as_str(), stack) {
            Some(i) => {
                self.cache.set(i, entry);
                assert(self@ =~= before.update(i as int, entry@));
            },
            None => {
                self.cache.push(entry);
                assert(self@ =~= before.push(entry@));
            },
        }
    }

    /// Force re-resolution after connect failures (host may have moved).
    pub fn invalidate(&mut self, host: &str)
        requires
            old(self).wf(),
        ensures
            final(self).wf(),
            final(self)@ == without_host(old(self)@, lowered(host@)),
    {
        let key: String = to_lower(host);
        let ghost all = self@;
        let mut kept: Vec<Resolved> = Vec::new();
        let ghost mut done: int = 0;
        proof {
            assert(resolved_views(kept@) =~= Seq::<ResolvedView>::empty());
            assert(all.skip(0) =~= all);
        }
        while self.cache.len() > 0
            invariant
                0 <= done <= all.len(),
                key@ == lowered(host@),
                self@ == all.skip(done),
                resolved_views(kept@) == without_host(all.take(done), key@),
            decreases self.cache@.len(),
        {
            let ghost rest = self.cache@;
            let entry: Resolved = self.cache.remove(0);
            proof {
                assert(resolved_views(rest)[0] == entry@);
                assert(self@ =~= resolved_views(rest).drop_first());
                assert(all.skip(done).drop_first() =~= all.skip(done + 1));
                assert(all.take(done + 1).drop_last() =~= all.take(done));
                assert(all.take(done + 1).last() == entry@);
            }
            if !same_text(entry.host.as_str(), key.as_str()) {
                let ghost before = kept@;
                kept.push(entry);
                assert(resolved_views(kept@) =~= resolved_views(before).push(entry@));
            }
            proof {
                done = done + 1;
            }
        }
        assert(all.take(done) =~= all);
        self.cache = kept;
        proof {
            lemma_without_host(all, lowered(host@));
        }
    }
}

proof fn lemma_without_host(v: Seq<ResolvedView>, host: Seq<char>)
    requires
        one_per_key(v),
    ensures
        one_per_key(without_host(v, host)),
        forall|i: int|
            0 <= i < without_host(v, host).len() ==> (#[trigger] without_host(v, host)[i]).0 != host
                && v.contains(without_host(v, host)[i]),
        forall|e: ResolvedView| #[trigger]
            v.contains(e) && e.0 != host ==> without_host(v, host).contains(e),
    decreases v.len(),
{
    if v.len() > 0 {
        let shorter = v.drop_last();
        assert forall|i: int, j: int| 0 <= i < j < shorter.len() implies (#[trigger] shorter[i]).0
            != (#[trigger] shorter[j]).0 || shorter[i].1 != shorter[j].1 by {
            assert(v[i] == shorter[i] && v[j] == shorter[j]);
        }
        lemma_without_host(shorter, host);
        let before = without_host(shorter, host);
        let out = without_host(v, host);
        assert forall|i: int| 0 <= i < out.len() implies (#[trigger] out[i]).0 != host
            && v.contains(out[i]) by {
            if i < before.len() {
                assert(out[i] == before[i]);
                let k = choose|k: int| 0 <= k < shorter.len() && shorter[k] == before[i];
                assert(v[k] == out[i]);
            } else {
                assert(v[v.len() - 1] == out[i]);
            }
        }
        assert forall|e: ResolvedView| #[trigger] v.contains(e) && e.0 != host implies out.contains(
            e,
        ) by {
            let k = choose|k: int| 0 <= k < v.len() && v[k] == e;
            if k < shorter.len() {
                assert(shorter[k] == e);
                assert(shorter.contains(e));
                let j = choose|j: int| 0 <= j < before.len() && before[j] == e;
                assert(out[j] == e);
            } else {
                assert(out[out.len() - 1] == e);
            }
        }
        assert forall|i: int, j: int| 0 <= i < j < out.len() implies (#[trigger] out[i]).0 != (
        #[trigger] out[j]).0 || out[i].1 != out[j].1 by {
            if j < before.len() {
                assert(out[i] == before[i] && out[j] == before[j]);
            } else {
                assert(out[i] == before[i]);
                assert(shorter.contains(before[i]));
                let k = choose|k: int| 0 <= k < shorter.len() && shorter[k] == before[i];
                assert(v[k] == out[i]);
                assert(v[v.len() - 1] == out[j]);
            }
        }
    }
}

// ---------- laws ----------

/// What was remembered of a host comes back until it runs out, however the host
/// is capitalised, and what is known of others stays as it was.
pub proof fn law_remembered_until_expiry(
    v: Seq<ResolvedView>,
    host: Seq<char>,
    stack: IpStack,
    ips: Seq<Ip>,
    expires: u64,
    other: Seq<char>,
    other_stack: IpStack,
    now: u64,
)
    requires
        one_per_key(v),
    ensures
        remembered(with_entry(v, host, stack, ips, expires), other, other_stack, now) == if lowered(
            other,
        ) == lowered(host) && other_stack == stack {
            if now < expires {
                Some(ips)
            } else {
                None
            }
        } else {
            remembered(v, other, other_stack, now)
        },
        one_per_key(with_entry(v, host, stack, ips, expires)),
{
    let key = lowered(other);
    let after = with_entry(v, host, stack, ips, expires);
    lemma_entry_at(v, lowered(host), stack, 0);
    lemma_entry_at(v, key, other_stack, 0);
    lemma_entry_at(after, key, other_stack, 0);
    let k = match entry_at(v, lowered(host), stack, 0) {
        Some(k) => k,
        None => v.len() as int,
    };
    assert(after[k] == (lowered(host), stack, ips, expires));
    assert(forall|i: int| 0 <= i < v.len() && i != k ==> #[trigger] after[i] == v[i]);
    if let Some(i) = entry_at(v, key, other_stack, 0) {
        assert(i != k ==> after[i] == v[i]);
    }
    if let Some(i) = entry_at(after, key, other_stack, 0) {
        assert(i != k ==> after[i] == v[i]);
    }
}

/// After `invalidate` nothing is remembered of a host, and as much as before of
/// any other.
pub proof fn law_invalidated_hosts_are_forgotten(
    v: Seq<ResolvedView>,
    host: Seq<char>,
    other: Seq<char>,
    stack: IpStack,
    now: u64,
)
    requires
        one_per_key(v),
    ensures
        remembered(without_host(v, lowered(host)), other, stack, now) == if lowered(other)
            == lowered(host) {
            None
        } else {
            remembered(v, other, stack, now)
        },
{
    let key = lowered(other);
    let after = without_host(v, lowered(host));
    lemma_without_host(v, lowered(host));
    lemma_entry_at(v, key, stack, 0);
    lemma_entry_at(after, key, stack, 0);
    if key != lowered(host) {
        if let Some(i) = entry_at(v, key, stack, 0) {
            assert(v.contains(v[i]));
            assert(after.contains(v[i]));
            let j = choose|j: int| 0 <= j < after.len() && after[j] == v[i];
            assert(after[j].0 == key);
        }
        if let Some(i) = entry_at(after, key, stack, 0) {
            assert(v.contains(after[i]));
            let j = choose|j: int| 0 <= j < v.len() && v[j] == after[i];
            assert(v[j].0 == key);
        }
    }
}

/// A resolution comes to an end: every question brings it closer, and it asks
/// at most two questions per server.
pub proof fn law_lookups_end(l: LookupView, reply: Result<(Seq<Ip>, u32), Seq<char>>)
    requires
        l.wf(),
        !l.is_over(),
    ensures
        l.after(reply).wf(),
        questions_left(l.after(reply)) < questions_left(l),
        questions_left(l) <= 4,
{
}

/// How many questions are left at most.
pub open spec fn questions_left(l: LookupView) -> int {
    2 * (servers().len() - l.server) - l.asked
}

/// What is dialed is what was answered, nothing more and nothing less; IPv4
/// addresses come first.
pub proof fn law_dial_order(ips: Seq<Ip>)
    ensures
        forall|ip: Ip| #[trigger] dial_order(ips).contains(ip) == ips.contains(ip),
        forall|i: int, j: int|
            0 <= i < j < dial_order(ips).len() && (#[trigger] dial_order(ips)[j]).spec_is_v4()
                ==> (#[trigger] dial_order(ips)[i]).spec_is_v4(),
{
    let a = of_family(ips, true);
    let b = of_family(ips, false);
    lemma_of_family(ips, true);
    lemma_of_family(ips, false);
    let all = a + b;
    assert forall|i: int, j: int|
        0 <= i < j < all.len() && (#[trigger] all[j]).spec_is_v4() implies (
    #[trigger] all[i]).spec_is_v4() by {}
    lemma_deduped(all);
    assert forall|ip: Ip| #[trigger] dial_order(ips).contains(ip) == ips.contains(ip) by {
        if all.contains(ip) {
            let k = choose|k: int| 0 <= k < all.len() && all[k] == ip;
            if k < a.len() {
                assert(a.contains(a[k]));
            } else {
                assert(b.contains(b[k - a.len()]));
            }
        }
        if ips.contains(ip) {
            if ip.spec_is_v4() {
                assert(a.contains(ip));
                let k = choose|k: int| 0 <= k < a.len() && a[k] == ip;
                assert(all[k] == ip);
            } else {
                assert(b.contains(ip));
                let k = choose|k: int| 0 <= k < b.len() && b[k] == ip;
                assert(all[a.len() + k] == ip);
            }
        }
    }
}

proof fn lemma_of_family(ips: Seq<Ip>, v4: bool)
    ensures
        forall|ip: Ip| #[trigger]
            of_family(ips, v4).contains(ip) == (ips.contains(ip) && ip.spec_is_v4() == v4),
        forall|i: int|
            0 <= i < of_family(ips, v4).len() ==> (#[trigger] of_family(ips, v4)[i]).spec_is_v4()
                == v4,
    decreases ips.len(),
{
    let out = of_family(ips, v4);
    if ips.len() > 0 {
        lemma_of_family(ips.drop_last(), v4);
        lemma_contains_last(ips);
        lemma_contains_last(out);
        if ips.last().spec_is_v4() == v4 {
            assert(out.drop_last() =~= of_family(ips.drop_last(), v4));
        }
    }
}

/// A list holds its last item and what is before it.
proof fn lemma_contains_last(s: Seq<Ip>)
    ensures
        s.len() > 0 ==> forall|ip: Ip| #[trigger]
            s.contains(ip) == (ip == s.last() || s.drop_last().contains(ip)),
{
    if s.len() > 0 {
        assert forall|ip: Ip| #[trigger] s.contains(ip) == (ip == s.last()
            || s.drop_last().contains(ip)) by {
            if s.contains(ip) {
                let k = choose|k: int| 0 <= k < s.len() && s[k] == ip;
                assert(k < s.len() - 1 ==> s.drop_last()[k] == ip);
            }
            if s.drop_last().contains(ip) {
                let k = choose|k: int| 0 <= k < s.len() - 1 && s.drop_last()[k] == ip;
                assert(s[k] == ip);
            }
            assert(s[s.len() - 1] == s.last());
        }
    }
}

proof fn lemma_deduped(s: Seq<Ip>)
    requires
        forall|i: int, j: int|
            0 <= i < j < s.len() && (#[trigger] s[j]).spec_is_v4() ==> (
            #[trigger] s[i]).spec_is_v4(),
    ensures
        forall|ip: Ip| #[trigger] deduped(s).contains(ip) == s.contains(ip),
        forall|i: int, j: int|
            0 <= i < j < deduped(s).len() && (#[trigger] deduped(s)[j]).spec_is_v4() ==> (
            #[trigger] deduped(s)[i]).spec_is_v4(),
    decreases s.len(),
{
    if s.len() > 0 {
        let shorter = s.drop_last();
        assert forall|i: int, j: int|
            0 <= i < j < shorter.len() && (#[trigger] shorter[j]).spec_is_v4() implies (
        #[trigger] shorter[i]).spec_is_v4() by {
            assert(s[i] == shorter[i] && s[j] == shorter[j]);
        }
        lemma_deduped(shorter);
        let before = deduped(shorter);
        let out = deduped(s);
        lemma_contains_last(s);
        if s.len() > 1 && s[s.len() - 2] == s.last() {
            assert(shorter[s.len() - 2] == s.last());
            assert(shorter.contains(s.last()));
        } else {
            lemma_contains_last(out);
            assert(out.drop_last() =~= before);
        }
        assert forall|i: int, j: int|
            0 <= i < j < out.len() && (#[trigger] out[j]).spec_is_v4() implies (
        #[trigger] out[i]).spec_is_v4() by {
            assert(out[i] == before[i]);
            if j < before.len() {
                assert(out[j] == before[j]);
            } else {
                assert(before.contains(before[i]));
                let k = choose|k: int| 0 <= k < shorter.len() && shorter[k] == before[i];
                assert(s[k] == out[i]);
                assert(s[s.len() - 1] == out[j]);
            }
        }
    }
}

} // verus!
