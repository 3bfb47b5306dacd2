//! Fetching over a network: which host a URL is fetched from, how many
//! requests to one host may be in flight, and what counts as an answer.

use vstd::prelude::*;
use crate::error::Error;
use crate::key_list::{first_where, lemma_first_where_next, lemma_first_where_stays, texts};
use crate::raw_assets::RawAssets;
use crate::text::{text_in, text_of};

verus! {

/// The number of requests to one host that may be in flight at a time,
/// unless another limit is chosen.
pub const CONN_PER_HOST: usize = 8;

/// The host that `url` names, as text: a domain, or an address. There is
/// none if `url` is no absolute URL, or one without a host.
pub uninterp spec fn url_host(url: Seq<char>) -> Option<Seq<char>>;

/// Parses a URL with `reqwest::Url::parse` and takes the `host` of the
/// result, as text.
///
/// Trusted: the outcome is a function of the text of the URL alone. It is
/// the host as `Display` writes it, if the URL can be parsed and has one.
#[verifier::external_body]
fn parse_host(url: &str) -> (host: Option<String>)
    ensures
        match host {
            Some(found) => url_host(url@) == Some(found@),
            None => url_host(url@) is None,
        },
{
    reqwest::Url::parse(url).ok()?.host().map(|host| host.to_string())
}

/// A request for a URL, with the host that it goes to.
#[derive(Debug)]
pub struct Request {
    /// The key that is asked for.
    pub url: String,
    /// The host that the request goes to.
    pub host: String,
}

/// The request for `url`, given the host that it names. Fails with
/// `FailedParsingUrl` and the URL if it names none.
pub fn route(url: &str, host: Option<String>) -> (request: Result<Request, Error>)
    ensures
        match request {
            Ok(found) => {
                &&& found.url@ == url@
                &&& host matches Some(name)
                &&& found.host@ == name@
            },
            Err(e) => host is None && e.is_failed_parsing_url(url@),
        },
{
    match host {
        Some(name) => Ok(Request { url: String::from_str(url), host: name }),
        None => Err(Error::FailedParsingUrl(String::from_str(url))),
    }
}

/// The position of the first of `urls` that is malformed or names no host.
pub open spec fn first_unroutable(urls: Seq<Seq<char>>) -> Option<int> {
    first_where(urls, |url: Seq<char>| url_host(url) is None)
}

/// The requests for `urls`, in order. Fails at the first URL that is
/// malformed or names no host, with `FailedParsingUrl` and that URL.
pub fn plan_requests(urls: &Vec<String>) -> (plan: Result<Vec<Request>, Error>)
    ensures
        match plan {
            Ok(requests) => {
                &&& first_unroutable(texts(urls@)) is None
                &&& requests@.len() == urls@.len()
                &&& forall|i: int|
                    0 <= i < requests@.len() ==> (#[trigger] requests@[i]).url@ == urls@[i]@
                        && url_host(urls@[i]@) == Some(requests@[i].host@)
            },
            Err(e) => {
                &&& first_unroutable(texts(urls@)) matches Some(at)
                &&& e.is_failed_parsing_url(texts(urls@)[at])
            },
        },
{
    let ghost keys = texts(urls@);
    let ghost bad = |url: Seq<char>| url_host(url) is None;
    let mut requests: Vec<Request> = Vec::new();
    let mut i: usize = 0;
    proof {
        assert(keys.take(0) =~= Seq::<Seq<char>>::empty());
    }
    while i < urls.len()
        invariant
            i <= urls.len(),
            keys == texts(urls@),
            bad == |url: Seq<char>| url_host(url) is None,
            first_where(keys.take(i as int), bad) is None,
            requests@.len() == i,
            forall|k: int|
                0 <= k < i ==> (#[trigger] requests@[k]).url@ == urls@[k]@ && url_host(
                    urls@[k]@,
                ) == Some(requests@[k].host@),
        decreases urls.len() - i,
    {
        proof {
            assert(keys[i as int] == urls@[i as int]@);
            lemma_first_where_next(keys, bad, i as int);
        }
        let url = urls[i].as_str();
        match route(url, parse_host(url)) {
            Ok(request) => {
                requests.push(request);
            },
            Err(e) => {
                proof {
                    lemma_first_where_stays(keys, bad, i + 1);
                }
                return Err(e);
            },
        }
        i += 1;
    }
    proof {
        assert(keys.take(keys.len() as int) =~= keys);
    }
    Ok(requests)
}

/// What a fetch of URLs gives where the network cannot be used: nothing for
/// no URL, and `FeatureMissing` with `reqwest` for any other batch.
pub fn load_urls_unavailable(urls: &Vec<String>) -> (loaded: Result<RawAssets, Error>)
    ensures
        match loaded {
            Ok(assets) => urls@.len() == 0 && assets.wf() && assets.keys().len() == 0,
            Err(e) => urls@.len() > 0 && e.is_feature_missing("reqwest"@),
        },
{
    if urls.len() > 0 {
        return Err(Error::FeatureMissing(String::from_str("reqwest")));
    }
    Ok(RawAssets::new())
}

/// The bytes with which an HTML document begins.
pub open spec fn html_marker() -> Seq<u8> {
    seq![
        0x3cu8, 0x21u8, 0x44u8, 0x4fu8, 0x43u8, 0x54u8, 0x59u8, 0x50u8, 0x45u8, 0x20u8, 0x68u8,
        0x74u8, 0x6du8, 0x6cu8, 0x3eu8,
    ]
}

/// `body` looks like an HTML page: it begins with `<!DOCTYPE html>`.
pub open spec fn looks_like_html(body: Seq<u8>) -> bool {
    html_marker().is_prefix_of(body)
}

/// Decides whether `body` looks like an HTML page. A host that does not
/// have what was asked for may answer with such a page in place of an
/// error.
pub fn is_html(body: &[u8]) -> (found: bool)
    ensures
        found == looks_like_html(body@),
{
    let marker: [u8; 15] = [
        0x3c, 0x21, 0x44, 0x4f, 0x43, 0x54, 0x59, 0x50, 0x45, 0x20, 0x68, 0x74, 0x6d, 0x6c, 0x3e,
    ];
    if body.len() < 15 {
        return false;
    }
    let mut i: usize = 0;
    while i < 15
        invariant
            i <= 15 <= body@.len(),
            marker@ == html_marker(),
            forall|k: int| 0 <= k < i ==> body@[k] == marker@[k],
        decreases 15 - i,
    {
        if body[i] != marker[i] {
            return false;
        }
        i += 1;
    }
    true
}

/// What is reported of a body that looks like an HTML page: its text, or
/// the marker that it begins with if it is no text.
pub open spec fn page_text(body: Seq<u8>) -> Seq<char> {
    match text_of(body) {
        Some(text) => text,
        None => "<!DOCTYPE html>"@,
    }
}

/// The answer to a request for `url` that came back with `body`: the body,
/// unless it looks like an HTML page; then the fetch failed, and the page
/// is the reason.
pub fn check_body(url: &str, body: Vec<u8>) -> (answer: Result<Vec<u8>, Error>)
    ensures
        match answer {
            Ok(bytes) => !looks_like_html(body@) && bytes@ == body@,
            Err(e) => looks_like_html(body@) && e.is_failed_loading_url(url@, page_text(body@)),
        },
{
    if !is_html(body.as_slice()) {
        return Ok(body);
    }
    let page = match text_in(body.as_slice()) {
        Some(text) => String::from_str(text),
        None => String::from_str("<!DOCTYPE html>"),
    };
    Err(Error::FailedLoadingUrl(String::from_str(url), page))
}

/// One host with the number of its requests in flight.
#[derive(Debug)]
struct HostLoad {
    host: String,
    in_flight: usize,
}

/// For each host the number of requests that are in flight to it, never
/// more than a limit.
#[derive(Debug)]
pub struct HostThrottle {
    limit: usize,
    loads: Vec<HostLoad>,
}

impl HostThrottle {
    /// The hosts that were seen.
    closed spec fn hosts(&self) -> Seq<Seq<char>> {
        Seq::new(self.loads@.len(), |i: int| self.loads@[i].host@)
    }

    /// The largest number of requests to one host that may be in flight.
    pub closed spec fn limit(&self) -> nat {
        self.limit as nat
    }

    /// The number of requests to `host` that are in flight.
    pub closed spec fn in_flight(&self, host: Seq<char>) -> nat {
        if self.hosts().contains(host) {
            self.loads@[self.hosts().index_of(host)].in_flight as nat
        } else {
            0
        }
    }

    /// Each host is listed once, and no host has more requests in flight
    /// than the limit.
    pub closed spec fn wf(&self) -> bool {
        &&& self.hosts().no_duplicates()
        &&& forall|i: int| 0 <= i < self.loads@.len() ==> self.loads@[i].in_flight <= self.limit
    }

    /// A throttle with the given limit and nothing in flight.
    pub fn new(limit: usize) -> (throttle: Self)
        ensures
            throttle.wf(),
            throttle.limit() == limit,
            forall|host: Seq<char>| throttle.in_flight(host) == 0,
    {
        HostThrottle { limit, loads: Vec::new() }
    }

    /// The position of `host` among the hosts that were seen.
    fn position_of(&self, host: &String) -> (found: Option<usize>)
        requires
            self.wf(),
        ensures
            match found {
                Some(at) => at < self.loads@.len() && self.hosts()[at as int] == host@
                    && self.in_flight(host@) == self.loads@[at as int].in_flight,
                None => !self.hosts().contains(host@) && self.in_flight(host@) == 0,
            },
    {
        let mut i: usize = 0;
        while i < self.loads.len()
            invariant
                i <= self.loads.len(),
                self.wf(),
                forall|k: int| 0 <= k < i ==> self.hosts()[k] != host@,
            decreases self.loads.len() - i,
        {
            if self.loads[i].host == *host {
                proof {
                    let at = self.hosts().index_of(host@);
                    assert(self.hosts()[i as int] == host@);
                    assert(self.hosts()[at] == host@);
                }
                return Some(i);
            }
            i += 1;
        }
        None
    }

    /// The number of requests to `host` that are in flight.
    pub fn count(&self, host: &str) -> (count: usize)
        requires
            self.wf(),
        ensures
            count == self.in_flight(host@),
            count <= self.limit(),
    {
        let key = String::from_str(host);
        match self.position_of(&key) {
            Some(at) => self.loads[at].in_flight,
            None => 0,
        }
    }

    /// Whether one more request to `host` may start.
    pub fn has_capacity(&self, host: &str) -> (free: bool)
        requires
            self.wf(),
        ensures
            free == (self.in_flight(host@) < self.limit()),
    {
        let key = String::from_str(host);
        match self.position_of(&key) {
            Some(at) => self.loads[at].in_flight < self.limit,
            None => 0 < self.limit,
        }
    }

    /// Starts a request to `host` if the limit allows it, and says whether
    /// it did. The other hosts are not touched.
    pub fn try_acquire(&mut self, host: &str) -> (started: bool)
        requires
            old(self).wf(),
        ensures
            final(self).wf(),
            final(self).limit() == old(self).limit(),
            started == (old(self).in_flight(host@) < old(self).limit()),
            final(self).in_flight(host@) == old(self).in_flight(host@) + if started {
                1nat
            } else {
                0nat
            },
            forall|other: Seq<char>|
                other != host@ ==> final(self).in_flight(other) == old(self).in_flight(other),
    {
        let key = String::from_str(host);
        let ghost before = *self;
        match self.position_of(&key) {
            Some(at) => {
                let count: usize = self.loads[at].in_flight;
                if count >= self.limit {
                    return false;
                }
                self.loads.set(at, HostLoad { host: key, in_flight: count + 1 });
                proof {
                    assert(self.hosts() =~= before.hosts());
                    before.lemma_other_hosts(*self, at as int);
                }
                true
            },
            None => {
                if self.limit == 0 {
                    return false;
                }
                self.loads.push(HostLoad { host: key, in_flight: 1 });
                proof {
                    assert(self.hosts() =~= before.hosts().push(host@));
                    let at = before.loads@.len() as int;
                    assert(self.hosts()[at] == host@);
                    let found = self.hosts().index_of(host@);
                    assert(self.hosts()[found] == host@);
                    assert forall|other: Seq<char>| other != host@ implies self.in_flight(other)
                        == before.in_flight(other) by {
                        if before.hosts().contains(other) {
                            let i = before.hosts().index_of(other);
                            assert(self.hosts()[i] == other);
                            let j = self.hosts().index_of(other);
                            assert(self.hosts()[j] == other);
                        }
                        if self.hosts().contains(other) {
                            let j = self.hosts().index_of(other);
                            assert(before.hosts()[j] == other);
                        }
                    }
                }
                true
            },
        }
    }

    /// Ends a request to `host`. Where none is in flight, nothing changes.
    /// The other hosts are not touched.
    pub fn release(&mut self, host: &str)
        requires
            old(self).wf(),
        ensures
            final(self).wf(),
            final(self).limit() == old(self).limit(),
            final(self).in_flight(host@) == if old(self).in_flight(host@) > 0 {
                (old(self).in_flight(host@) - 1) as nat
            } else {
                0nat
            },
            forall|other: Seq<char>|
                other != host@ ==> final(self).in_flight(other) == old(self).in_flight(other),
    {
        let key = String::from_str(host);
        let ghost before = *self;
        if let Some(at) = self.position_of(&key) {
            let count: usize = self.loads[at].in_flight;
            if count > 0 {
                self.loads.set(at, HostLoad { host: key, in_flight: count - 1 });
                proof {
                    assert(self.hosts() =~= before.hosts());
                    before.lemma_other_hosts(*self, at as int);
                }
            }
        }
    }

    /// Setting the load of one host leaves those of the others.
    proof fn lemma_other_hosts(self, after: HostThrottle, at: int)
        requires
            self.wf(),
            0 <= at < self.loads@.len(),
            after.hosts() == self.hosts(),
            after.loads@.len() == self.loads@.len(),
            forall|i: int|
                0 <= i < self.loads@.len() && i != at ==> after.loads@[i].in_flight
                    == self.loads@[i].in_flight,
        ensures
            after.in_flight(self.hosts()[at]) == after.loads@[at].in_flight,
            forall|other: Seq<char>|
                other != self.hosts()[at] ==> after.in_flight(other) == self.in_flight(other),
    {
        let found = self.hosts().index_of(self.hosts()[at]);
        assert(self.hosts()[found] == self.hosts()[at]);
        assert forall|other: Seq<char>| other != self.hosts()[at] implies after.in_flight(other)
            == self.in_flight(other) by {
            if self.hosts().contains(other) {
                let i = self.hosts().index_of(other);
                assert(self.hosts()[i] == other);
            }
        }
    }
}

impl Default for HostThrottle {
    fn default() -> (throttle: Self)
        ensures
            throttle.wf(),
            throttle.limit() == CONN_PER_HOST,
            forall|host: Seq<char>| throttle.in_flight(host) == 0,
    {
        HostThrottle::new(CONN_PER_HOST)
    }
}

/// No host has more requests in flight than the limit.
pub proof fn law_in_flight_within_limit(throttle: HostThrottle, host: Seq<char>)
    requires
        throttle.wf(),
    ensures
        throttle.in_flight(host) <= throttle.limit(),
{
    if throttle.hosts().contains(host) {
        let at = throttle.hosts().index_of(host);
        assert(throttle.hosts()[at] == host);
    }
}

/// The requests of one fetch that wait for their turn, and the throttle
/// that says whose turn it is.
#[derive(Debug)]
pub struct RequestQueue {
    waiting: Vec<Request>,
    throttle: HostThrottle,
}

impl RequestQueue {
    /// The URLs of the waiting requests, in order.
    pub closed spec fn waiting_urls(&self) -> Seq<Seq<char>> {
        Seq::new(self.waiting@.len(), |i: int| self.waiting@[i].url@)
    }

    /// The hosts of the waiting requests, each at the position of its URL.
    pub closed spec fn waiting_hosts(&self) -> Seq<Seq<char>> {
        Seq::new(self.waiting@.len(), |i: int| self.waiting@[i].host@)
    }

    /// The throttle.
    pub closed spec fn throttle(&self) -> HostThrottle {
        self.throttle
    }

    /// The throttle is well formed.
    pub open spec fn wf(&self) -> bool {
        &&& self.throttle().wf()
        &&& self.waiting_urls().len() == self.waiting_hosts().len()
    }

    /// The position of the first waiting request whose host has room for
    /// one more request in flight.
    pub open spec fn next_ready(&self) -> Option<int> {
        first_where(
            self.waiting_hosts(),
            |host: Seq<char>| self.throttle().in_flight(host) < self.throttle().limit(),
        )
    }

    /// A queue in which all of `requests` wait and nothing is in flight,
    /// with the given limit for each host.
    pub fn new(requests: Vec<Request>, limit: usize) -> (queue: Self)
        ensures
            queue.wf(),
            queue.throttle().limit() == limit,
            forall|host: Seq<char>| queue.throttle().in_flight(host) == 0,
            queue.waiting_urls().len() == requests@.len(),
            forall|i: int|
                0 <= i < requests@.len() ==> queue.waiting_urls()[i] == (
                #[trigger] requests@[i]).url@ && queue.waiting_hosts()[i] == requests@[i].host@,
    {
        RequestQueue { waiting: requests, throttle: HostThrottle::new(limit) }
    }

    /// Whether no request waits.
    pub fn is_empty(&self) -> (empty: bool)
        ensures
            empty == (self.waiting_urls().len() == 0),
    {
        self.waiting.len() == 0
    }

    /// Starts the first waiting request whose host has room: takes it out
    /// of the queue, counts it as in flight, and returns it. Returns nothing,
    /// and changes nothing, where every waiting request goes to a host that
    /// is at its limit.
    pub fn start_next(&mut self) -> (started: Option<Request>)
        requires
            old(self).wf(),
        ensures
            final(self).wf(),
            final(self).throttle().limit() == old(self).throttle().limit(),
            match started {
                Some(request) => {
                    &&& old(self).next_ready() matches Some(at)
                    &&& request.url@ == old(self).waiting_urls()[at]
                    &&& request.host@ == old(self).waiting_hosts()[at]
                    &&& final(self).waiting_urls() == old(self).waiting_urls().remove(at)
                    &&& final(self).waiting_hosts() == old(self).waiting_hosts().remove(at)
                    &&& final(self).throttle().in_flight(request.host@) == old(
                        self,
                    ).throttle().in_flight(request.host@) + 1
                    &&& forall|other: Seq<char>|
                        other != request.host@ ==> final(self).throttle().in_flight(other) == old(
                            self,
                        ).throttle().in_flight(other)
                },
                None => old(self).next_ready() is None && *final(self) == *old(self),
            },
    {
        let ghost before = *self;
        let ghost hosts = self.waiting_hosts();
        let ghost free = |host: Seq<char>|
            before.throttle().in_flight(host) < before.throttle().limit();
        let mut i: usize = 0;
        proof {
            assert(hosts.take(0) =~= Seq::<Seq<char>>::empty());
        }
        while i < self.waiting.len()
            invariant
                i <= self.waiting.len(),
                *self == before,
                before == *old(self),
                before.wf(),
                hosts == before.waiting_hosts(),
                free == |host: Seq<char>|
                    before.throttle().in_flight(host) < before.throttle().limit(),
                first_where(hosts.take(i as int), free) is None,
            decreases self.waiting.len() - i,
        {
            proof {
                assert(hosts[i as int] == self.waiting@[i as int].host@);
                lemma_first_where_next(hosts, free, i as int);
            }
            if self.throttle.has_capacity(self.waiting[i].host.as_str()) {
                proof {
                    lemma_first_where_stays(hosts, free, i + 1);
                }
                self.throttle.try_acquire(self.waiting[i].host.as_str());
                let request = self.waiting.remove(i);
                proof {
                    assert(self.waiting_urls() =~= before.waiting_urls().remove(i as int));
                    assert(self.waiting_hosts() =~= before.waiting_hosts().remove(i as int));
                }
                return Some(request);
            }
            i += 1;
        }
        proof {
            assert(hosts.take(hosts.len() as int) =~= hosts);
        }
        None
    }

    /// Counts one request to `host` as over. The waiting requests stay.
    pub fn finished(&mut self, host: &str)
        requires
            old(self).wf(),
        ensures
            final(self).wf(),
            final(self).throttle().limit() == old(self).throttle().limit(),
            final(self).waiting_urls() == old(self).waiting_urls(),
            final(self).waiting_hosts() == old(self).waiting_hosts(),
            final(self).throttle().in_flight(host@) == if old(self).throttle().in_flight(host@)
                > 0 {
                (old(self).throttle().in_flight(host@) - 1) as nat
            } else {
                0nat
            },
            forall|other: Seq<char>|
                other != host@ ==> final(self).throttle().in_flight(other) == old(
                    self,
                ).throttle().in_flight(other),
    {
        self.throttle.release(host);
    }

    /// The number of requests to `host` that are in flight.
    pub fn in_flight(&self, host: &str) -> (count: usize)
        requires
            self.wf(),
        ensures
            count == self.throttle().in_flight(host@),
            count <= self.throttle().limit(),
    {
        self.throttle.count(host)
    }
}

} // verus!
