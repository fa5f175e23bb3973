//! The expiring conversion cache: the table of exchange rates anchored to the
//! US dollar, the time of its last refresh, and the rules by which a reply of
//! the rate provider replaces it.

use crate::fixed::{div_round, lemma_round_div_nearest, lemma_round_div_unique, round_div, SCALE};
use crate::rates::{RateEntry, RateTable};
use crate::text::{nat_text, push_nat, same_text};
use vstd::prelude::*;
use vstd::string::StringExecFns;

verus! {

/// The currency codes that a refresh asks the provider for.
pub const ALL_CURRENCIES: &'static str =
    "AED,AFN,ALL,AMD,ANG,AOA,ARS,AUD,AWG,AZN,BAM,BBD,BDT,BGN,BHD,BIF,BMD,\
BOB,BRL,BSD,BTN,BWP,BYN,BZD,CAD,CDF,CHF,CLF,CLP,CNY,COP,CRC,CUC,CUP,CVE,CZK,DJF,DKK,DZD,EGP,ERN,ETB,\
EUR,FJD,FKP,GBP,GEL,GHS,GIP,GMD,GNF,GTQ,GYD,HKD,HNL,HTG,HUF,IDR,ILS,INR,IQD,IRR,JMD,JOD,JPY,KES,KGS,\
KHR,KMF,KPW,KRW,KWD,KYD,KZT,LAK,LBP,LKR,LRD,LSL,LYD,MAD,MDL,MGA,MKD,MMK,MOP,MUR,MVR,MWK,MXN,MYR,MZN,\
NAD,NGN,NIO,NOK,NPR,NZD,OMR,PAB,PEN,PGK,PHP,PKR,PLN,PYG,QAR,RSD,RUB,RWF,SAR,SBD,SCR,SDG,SEK,SGD,SHP,\
SLE,SLL,SOS,SRD,SVC,SYP,SZL,THB,TJS,TMT,TOP,TRY,TTD,TWD,TZS,UAH,UGX,USD,UYU,UZS,VES,VND,VUV,WST,XAF,\
XAG,XAU,XCD,XDR,XOF,XPF,YER,ZAR,ZMW,ZWL";

/// The address of the provider's latest-rates endpoint.
pub const RATES_ENDPOINT: &'static str = "https://api.apilayer.com/exchangerates_data/latest";

/// The currency to which every cached rate is anchored.
pub const ANCHOR: &'static str = "USD";

/// Why a refresh failed.
#[derive(Debug, Clone, Copy, PartialEq, Eq, Structural)]
pub enum CacheError {
    /// The provider's key is not configured.
    ConfigurationMissing,
    /// The request could not be sent or no reply came.
    TransportFailure,
    /// The provider answered with a status outside the successful ones.
    UpstreamRejected(u16),
    /// The reply does not describe a usable set of rates.
    DecodeFailure,
}

/// What the provider's reply holds, rates in millionths as they came.
pub struct ConversionResponse {
    pub base: String,
    pub date: String,
    pub rates: Vec<RateEntry>,
    pub success: bool,
    pub timestamp: i64,
}

/// The request that a refresh sends.
pub struct RateRequest {
    pub url: String,
    pub api_key: String,
    pub symbols: String,
    pub base: String,
}

/// What a reader sees of the cache: the rates and the time of the refresh
/// that produced them.
pub ghost struct CacheView {
    pub rates: Map<Seq<char>, u64>,
    pub last_updated: u64,
}

/// A copy of the cache's table with the time of its refresh.
pub struct CacheSnapshot {
    pub table: RateTable,
    pub last_updated: u64,
}

/// The cached rates and the time, in seconds, of their last refresh.
pub struct ExpiringConversionCache {
    conversion_table: RateTable,
    last_updated: u64,
}

/// The text of a refresh error.
pub open spec fn cache_error_text(e: CacheError) -> Seq<char> {
    match e {
        CacheError::ConfigurationMissing => "Error getting conversion rates: "@
            + "Couldn't get the API key from the environment variable"@,
        CacheError::TransportFailure => "Error getting conversion rates: "@
            + "Couldn't send the request"@,
        CacheError::UpstreamRejected(status) => "Error getting conversion rates: "@
            + "HTTP request failed with "@ + nat_text(status as nat)
            + ", couldn't get conversion"@,
        CacheError::DecodeFailure => "Error getting conversion rates: "@
            + "Couldn't read the JSON response properly"@,
    }
}

impl CacheError {
    /// The error as text.
    pub fn message(&self) -> (out: String)
        ensures
            out@ == cache_error_text(*self),
    {
        let mut out = String::from_str("Error getting conversion rates: ");
        match self {
            CacheError::ConfigurationMissing => {
                out.append("Couldn't get the API key from the environment variable");
            },
            CacheError::TransportFailure => {
                out.append("Couldn't send the request");
            },
            CacheError::UpstreamRejected(status) => {
                out.append("HTTP request failed with ");
                push_nat(&mut out, *status as u128);
                out.append(", couldn't get conversion");
            },
            CacheError::DecodeFailure => {
                out.append("Couldn't read the JSON response properly");
            },
        }
        out
    }
}

/// Whether a status is one of the successful ones, 200 to 299.
pub open spec fn status_is_success(status: u16) -> bool {
    200 <= status < 300
}

/// The request for fresh rates: every known currency, anchored to the
/// dollar. Without a key there is nothing to send.
pub fn plan_request(api_key: Option<String>) -> (planned: Result<RateRequest, CacheError>)
    ensures
        api_key is None ==> planned == Err::<RateRequest, CacheError>(
            CacheError::ConfigurationMissing,
        ),
        api_key is Some ==> planned is Ok && planned->Ok_0.url@ == RATES_ENDPOINT@
            && planned->Ok_0.api_key@ == api_key->Some_0@ && planned->Ok_0.symbols@
            == ALL_CURRENCIES@ && planned->Ok_0.base@ == ANCHOR@,
{
    match api_key {
        None => Err(CacheError::ConfigurationMissing),
        Some(key) => Ok(
            RateRequest {
                url: String::from_str(RATES_ENDPOINT),
                api_key: key,
                symbols: String::from_str(ALL_CURRENCIES),
                base: String::from_str(ANCHOR),
            },
        ),
    }
}

/// What a reply amounts to: a status outside 200 to 299 is a rejection that
/// carries the status, a body that could not be decoded is a decode failure,
/// anything else is the decoded reply.
pub fn judge_reply(status: u16, decoded: Option<ConversionResponse>) -> (judged: Result<
    ConversionResponse,
    CacheError,
>)
    ensures
        !status_is_success(status) ==> judged == Err::<ConversionResponse, CacheError>(
            CacheError::UpstreamRejected(status),
        ),
        status_is_success(status) && decoded is None ==> judged == Err::<
            ConversionResponse,
            CacheError,
        >(CacheError::DecodeFailure),
        status_is_success(status) && decoded is Some ==> judged == Ok::<
            ConversionResponse,
            CacheError,
        >(decoded->Some_0),
{
    if status < 200 || status >= 300 {
        return Err(CacheError::UpstreamRejected(status));
    }
    match decoded {
        None => Err(CacheError::DecodeFailure),
        Some(response) => Ok(response),
    }
}

/// The rate of each code as the reply gives it; of a code given twice, the
/// later rate.
pub open spec fn raw_rates(entries: Seq<RateEntry>) -> Map<Seq<char>, u64>
    decreases entries.len(),
{
    if entries.len() == 0 {
        Map::empty()
    } else {
        raw_rates(entries.drop_last()).insert(entries.last().code@, entries.last().rate)
    }
}

/// A rate relative to the dollar: `rate / usd`, in millionths.
pub open spec fn anchor_rate(rate: u64, usd: u64) -> int {
    round_div(rate * SCALE, usd as int)
}

/// Whether a rate relative to the dollar can be stored: it is positive and
/// fits the table.
pub open spec fn anchors(rate: u64, usd: u64) -> bool {
    usd > 0 && 1 <= anchor_rate(rate, usd) <= u64::MAX
}

/// The rate of each code relative to the dollar.
pub open spec fn anchored_rates(entries: Seq<RateEntry>, usd: u64) -> Map<Seq<char>, u64>
    decreases entries.len(),
{
    if entries.len() == 0 {
        Map::empty()
    } else {
        anchored_rates(entries.drop_last(), usd).insert(
            entries.last().code@,
            anchor_rate(entries.last().rate, usd) as u64,
        )
    }
}

/// Whether a reply can become the table: it gives a rate for the dollar and
/// for the base it declares, and every rate can be anchored. The last is a
/// limit of the table, which holds rates as millionths in 64 bits: a rate
/// that comes to less than half a millionth of the dollar's, or to more than
/// the 64 bits hold, has no place in it.
pub open spec fn usable(response: ConversionResponse) -> bool {
    let raw = raw_rates(response.rates@);
    &&& raw.contains_key(ANCHOR@)
    &&& raw.contains_key(response.base@)
    &&& forall|i: int|
        0 <= i < response.rates@.len() ==> anchors(
            (#[trigger] response.rates@[i]).rate,
            raw[ANCHOR@],
        )
}

/// The table that a usable reply becomes: every rate anchored to the dollar,
/// but the declared base with the rate that the reply gave it.
pub open spec fn refreshed_rates(response: ConversionResponse) -> Map<Seq<char>, u64> {
    let raw = raw_rates(response.rates@);
    anchored_rates(response.rates@, raw[ANCHOR@]).insert(response.base@, raw[response.base@])
}

/// What a refresh leaves in the table: the codes of the reply and no other,
/// the declared base with the rate that the reply gave it, and every other
/// code with its rate divided by the dollar's.
pub open spec fn is_refreshed(rates: Map<Seq<char>, u64>, response: ConversionResponse) -> bool {
    let raw = raw_rates(response.rates@);
    &&& rates.dom() == raw.dom()
    &&& rates.contains_key(response.base@)
    &&& rates[response.base@] == raw[response.base@]
    &&& forall|c: Seq<char>| #[trigger]
        raw.contains_key(c) && c != response.base@ ==> rates[c] == anchor_rate(
            raw[c],
            raw[ANCHOR@],
        )
}

/// The anchored rates cover the codes of the reply, each with its own rate
/// divided by the dollar's.
pub proof fn lemma_anchored_rates(entries: Seq<RateEntry>, usd: u64)
    ensures
        anchored_rates(entries, usd).dom() == raw_rates(entries).dom(),
        forall|c: Seq<char>| #[trigger]
            raw_rates(entries).contains_key(c) ==> anchored_rates(entries, usd)[c] == anchor_rate(
                raw_rates(entries)[c],
                usd,
            ) as u64,
    decreases entries.len(),
{
    if entries.len() == 0 {
        assert(anchored_rates(entries, usd).dom() =~= raw_rates(entries).dom());
    } else {
        lemma_anchored_rates(entries.drop_last(), usd);
        assert(anchored_rates(entries, usd).dom() =~= raw_rates(entries).dom());
    }
}

/// A code with a raw rate stands somewhere in the reply with that rate.
pub proof fn lemma_raw_rate_is_listed(entries: Seq<RateEntry>, c: Seq<char>)
    requires
        raw_rates(entries).contains_key(c),
    ensures
        exists|i: int|
            0 <= i < entries.len() && (#[trigger] entries[i]).code@ == c && entries[i].rate
                == raw_rates(entries)[c],
    decreases entries.len(),
{
    if entries.len() > 0 {
        if entries.last().code@ == c {
            assert(entries[entries.len() - 1].code@ == c);
        } else {
            lemma_raw_rate_is_listed(entries.drop_last(), c);
            let i = choose|i: int|
                0 <= i < entries.drop_last().len() && (#[trigger] entries.drop_last()[i]).code@ == c
                    && entries.drop_last()[i].rate == raw_rates(entries.drop_last())[c];
            assert(entries[i] == entries.drop_last()[i]);
        }
    }
}

/// After a refresh the declared base has the rate that the reply gave it,
/// not the anchored one; every other code of the reply has its rate divided
/// by the dollar's, and the table holds no further code.
pub proof fn lemma_refresh_keeps_base_rate(response: ConversionResponse)
    requires
        usable(response),
    ensures
        is_refreshed(refreshed_rates(response), response),
        refreshed_rates(response).contains_key(response.base@),
        refreshed_rates(response)[response.base@] == raw_rates(response.rates@)[response.base@],
        refreshed_rates(response).dom() == raw_rates(response.rates@).dom(),
        forall|c: Seq<char>| #[trigger]
            raw_rates(response.rates@).contains_key(c) && c != response.base@ ==> {
                &&& refreshed_rates(response)[c] == anchor_rate(
                    raw_rates(response.rates@)[c],
                    raw_rates(response.rates@)[ANCHOR@],
                )
                &&& refreshed_rates(response)[c] > 0
            },
{
    let raw = raw_rates(response.rates@);
    let usd = raw[ANCHOR@];
    lemma_anchored_rates(response.rates@, usd);
    assert(refreshed_rates(response).dom() =~= raw.dom());
    assert forall|c: Seq<char>| #[trigger] raw.contains_key(c) && c != response.base@ implies {
        &&& refreshed_rates(response)[c] == anchor_rate(raw[c], usd)
        &&& refreshed_rates(response)[c] > 0
    } by {
        lemma_raw_rate_is_listed(response.rates@, c);
        let i = choose|i: int|
            0 <= i < response.rates@.len() && (#[trigger] response.rates@[i]).code@ == c
                && response.rates@[i].rate == raw[c];
        assert(anchors(response.rates@[i].rate, usd));
    }
}

/// Only a positive rate can be anchored.
pub proof fn lemma_anchored_is_positive(rate: u64, usd: u64)
    requires
        anchors(rate, usd),
    ensures
        rate > 0,
{
    if rate == 0 {
        assert(rate * SCALE == 0);
        lemma_round_div_unique(0, usd as int, 0);
    }
}

/// The rates that can be anchored, in plain terms: the quotient `rate / usd`
/// lies between half a millionth and the largest rate that the table holds,
/// `u64::MAX` millionths and a half. These are the limits of the table's
/// 64 bits of millionths.
pub proof fn lemma_anchors_when(rate: u64, usd: u64)
    ensures
        anchors(rate, usd) <==> usd > 0 && usd <= 2 * (rate * SCALE) && 2 * (rate * SCALE) < usd
            * (2 * u64::MAX + 1),
{
    if usd > 0 {
        let n = rate * SCALE;
        let d = usd as int;
        let r = anchor_rate(rate, usd);
        lemma_round_div_nearest(n, d);
        assert(r >= 1 <==> d <= 2 * n) by (nonlinear_arith)
            requires
                -d <= 2 * n - 2 * d * r < d,
                d > 0,
        ;
        assert(r <= u64::MAX <==> 2 * n < d * (2 * u64::MAX + 1)) by (nonlinear_arith)
            requires
                -d <= 2 * n - 2 * d * r < d,
                d > 0,
        ;
    }
}

/// With the dollar at exactly one, a rate is its own anchored rate.
pub proof fn lemma_anchor_at_par(rate: u64)
    ensures
        anchor_rate(rate, SCALE) == rate,
{
    assert(2 * (rate * SCALE) - 2 * SCALE * rate == 0) by (nonlinear_arith);
    lemma_round_div_unique(rate * SCALE, SCALE as int, rate as int);
}

/// Where the reply gives the dollar the rate of exactly one, a refresh
/// succeeds for every reply that holds the dollar and its base and only
/// positive rates, and the table then holds every rate as the reply gave it.
pub proof fn lemma_usable_at_par(response: ConversionResponse)
    requires
        raw_rates(response.rates@).contains_key(ANCHOR@),
        raw_rates(response.rates@).contains_key(response.base@),
        raw_rates(response.rates@)[ANCHOR@] == SCALE,
        forall|i: int| 0 <= i < response.rates@.len() ==> (#[trigger] response.rates@[i]).rate > 0,
    ensures
        usable(response),
        refreshed_rates(response) == raw_rates(response.rates@),
{
    let raw = raw_rates(response.rates@);
    assert forall|i: int| 0 <= i < response.rates@.len() implies anchors(
        (#[trigger] response.rates@[i]).rate,
        raw[ANCHOR@],
    ) by {
        lemma_anchor_at_par(response.rates@[i].rate);
    }
    lemma_refresh_keeps_base_rate(response);
    assert forall|c: Seq<char>| raw.contains_key(c) implies #[trigger] refreshed_rates(
        response,
    )[c] == raw[c] by {
        if c != response.base@ {
            lemma_anchor_at_par(raw[c]);
        }
    }
    assert(refreshed_rates(response) =~= raw);
}

/// An anchored rate is within half a millionth of the exact quotient
/// `rate / usd`.
pub proof fn lemma_anchor_rate_nearest(rate: u64, usd: u64)
    requires
        usd > 0,
    ensures
        -usd <= 2 * (rate * SCALE) - 2 * usd * anchor_rate(rate, usd) < usd,
{
    lemma_round_div_nearest(rate * SCALE, usd as int);
}

/// The rate that the reply gives a code, the later one where it gives two.
pub fn raw_rate(entries: &Vec<RateEntry>, code: &str) -> (rate: Option<u64>)
    ensures
        rate == (if raw_rates(entries@).contains_key(code@) {
            Some(raw_rates(entries@)[code@])
        } else {
            None
        }),
{
    let mut rate: Option<u64> = None;
    let mut i: usize = 0;
    assert(entries@.subrange(0, 0) =~= Seq::<RateEntry>::empty());
    while i < entries.len()
        invariant
            i <= entries@.len(),
            rate == (if raw_rates(entries@.subrange(0, i as int)).contains_key(code@) {
                Some(raw_rates(entries@.subrange(0, i as int))[code@])
            } else {
                None
            }),
        decreases entries@.len() - i,
    {
        assert(entries@.subrange(0, i + 1).drop_last() =~= entries@.subrange(0, i as int));
        if same_text(entries[i].code.as_str(), code) {
            rate = Some(entries[i].rate);
        }
        i = i + 1;
    }
    assert(entries@.subrange(0, entries@.len() as int) =~= entries@);
    rate
}

/// A rate divided by the dollar's, where the quotient can be stored.
pub fn anchor(rate: u64, usd: u64) -> (anchored: Option<u64>)
    ensures
        anchored == (if anchors(rate, usd) {
            Some(anchor_rate(rate, usd) as u64)
        } else {
            None
        }),
{
    if usd == 0 {
        return None;
    }
    assert(rate * SCALE <= 0xffff_ffff_ffff_ffff * 1_000_000) by (nonlinear_arith)
        requires
            rate <= 0xffff_ffff_ffff_ffff,
            SCALE == 1_000_000,
    ;
    let scaled: i128 = (rate as i128) * (SCALE as i128);
    let quotient: i128 = div_round(scaled, usd as i128);
    if quotient < 1 || quotient > u64::MAX as i128 {
        None
    } else {
        Some(quotient as u64)
    }
}

/// The age of rates refreshed at `last_updated` when the clock shows `now`:
/// the seconds between the two, none where the clock has gone back.
pub open spec fn age_at(last_updated: u64, now: u64) -> nat {
    if now >= last_updated {
        (now - last_updated) as nat
    } else {
        0
    }
}

impl CacheSnapshot {
    /// The age of the snapshot's rates when the clock shows `now`.
    pub fn age(&self, now: u64) -> (secs: u64)
        ensures
            secs == age_at(self.last_updated, now),
    {
        if now >= self.last_updated {
            now - self.last_updated
        } else {
            0
        }
    }
}

/// Whether a snapshot is what a read of the cache gives: the rates of the
/// cache and the time of the refresh that produced them.
pub open spec fn is_snapshot_of(snapshot: CacheSnapshot, cache: ExpiringConversionCache) -> bool {
    snapshot.table@ == cache@.rates && snapshot.last_updated == cache@.last_updated
}

impl View for ExpiringConversionCache {
    type V = CacheView;

    closed spec fn view(&self) -> CacheView {
        CacheView { rates: self.conversion_table@, last_updated: self.last_updated }
    }
}

impl ExpiringConversionCache {
    /// Validity: the table is a valid rate table.
    pub closed spec fn wf(&self) -> bool {
        self.conversion_table.wf()
    }

    /// Every cached rate is positive.
    pub proof fn lemma_cached_rates_positive(&self)
        requires
            self.wf(),
        ensures
            forall|c: Seq<char>| #[trigger] self@.rates.contains_key(c) ==> self@.rates[c] > 0,
    {
        self.conversion_table.lemma_rates_positive();
    }

    /// An empty cache, made at the time `now`.
    pub fn new(now: u64) -> (cache: ExpiringConversionCache)
        ensures
            cache.wf(),
            cache@.rates == Map::<Seq<char>, u64>::empty(),
            cache@.last_updated == now,
    {
        ExpiringConversionCache { conversion_table: RateTable::new(), last_updated: now }
    }

    /// Takes in the outcome of a fetch at the time `now`. A reply that can
    /// become the table replaces the table and sets the time; a failed fetch,
    /// or a reply that cannot, leaves the cache as it was and is reported.
    pub fn populate(&mut self, fetched: Result<ConversionResponse, CacheError>, now: u64) -> (done:
        Result<(), CacheError>)
        requires
            old(self).wf(),
        ensures
            final(self).wf(),
            match fetched {
                Ok(response) => if usable(response) {
                    &&& done is Ok
                    &&& final(self)@.rates == refreshed_rates(response)
                    &&& is_refreshed(final(self)@.rates, response)
                    &&& final(self)@.last_updated == now
                } else {
                    &&& done == Err::<(), CacheError>(CacheError::DecodeFailure)
                    &&& *final(self) == *old(self)
                },
                Err(e) => {
                    &&& done == Err::<(), CacheError>(e)
                    &&& *final(self) == *old(self)
                },
            },
    {
        match fetched {
            Ok(response) => self.fill_cache(&response, now),
            Err(e) => Err(e),
        }
    }

    /// The cached table.
    pub fn get_conversion_table(&self) -> (table: &RateTable)
        requires
            self.wf(),
        ensures
            table.wf(),
            table@ == self@.rates,
    {
        &self.conversion_table
    }

    /// The time of the last refresh.
    pub fn last_updated(&self) -> (at: u64)
        ensures
            at == self@.last_updated,
    {
        self.last_updated
    }

    /// A copy of the table together with the time of the refresh that
    /// produced it.
    pub fn read(&self) -> (snapshot: CacheSnapshot)
        requires
            self.wf(),
        ensures
            snapshot.table.wf(),
            is_snapshot_of(snapshot, *self),
    {
        CacheSnapshot { table: self.conversion_table.snapshot(), last_updated: self.last_updated }
    }

    /// Replaces the table by the one that the reply describes and sets the
    /// time of the refresh to `now`; a reply that cannot become the table
    /// changes nothing.
    pub fn fill_cache(&mut self, conversion_response: &ConversionResponse, now: u64) -> (done:
        Result<(), CacheError>)
        requires
            old(self).wf(),
        ensures
            final(self).wf(),
            if usable(*conversion_response) {
                &&& done is Ok
                &&& final(self)@.rates == refreshed_rates(*conversion_response)
                &&& is_refreshed(final(self)@.rates, *conversion_response)
                &&& final(self)@.last_updated == now
            } else {
                &&& done == Err::<(), CacheError>(CacheError::DecodeFailure)
                &&& *final(self) == *old(self)
            },
    {
        let entries = &conversion_response.rates;
        let usd: u64 = match raw_rate(entries, ANCHOR) {
            Some(rate) => rate,
            None => {
                return Err(CacheError::DecodeFailure);
            },
        };
        let base_rate: u64 = match raw_rate(entries, conversion_response.base.as_str()) {
            Some(rate) => rate,
            None => {
                return Err(CacheError::DecodeFailure);
            },
        };
        let mut table = RateTable::new();
        let mut i: usize = 0;
        assert(entries@.subrange(0, 0) =~= Seq::<RateEntry>::empty());
        while i < entries.len()
            invariant
                i <= entries@.len(),
                *self == *old(self),
                self.wf(),
                entries@ == conversion_response.rates@,
                raw_rates(entries@).contains_key(ANCHOR@),
                raw_rates(entries@).contains_key(conversion_response.base@),
                usd == raw_rates(entries@)[ANCHOR@],
                table.wf(),
                table@ == anchored_rates(entries@.subrange(0, i as int), usd),
                forall|k: int| 0 <= k < i ==> anchors((#[trigger] entries@[k]).rate, usd),
            decreases entries@.len() - i,
        {
            assert(entries@.subrange(0, i + 1).drop_last() =~= entries@.subrange(0, i as int));
            match anchor(entries[i].rate, usd) {
                Some(anchored) => {
                    table.insert(entries[i].code.as_str(), anchored);
                },
                None => {
                    return Err(CacheError::DecodeFailure);
                },
            }
            i = i + 1;
        }
        assert(entries@.subrange(0, entries@.len() as int) =~= entries@);
        proof {
            lemma_raw_rate_is_listed(entries@, conversion_response.base@);
            let k = choose|k: int|
                0 <= k < entries@.len() && (#[trigger] entries@[k]).code@
                    == conversion_response.base@ && entries@[k].rate == base_rate;
            lemma_anchored_is_positive(entries@[k].rate, usd);
        }
        table.insert(conversion_response.base.as_str(), base_rate);
        proof {
            lemma_refresh_keeps_base_rate(*conversion_response);
        }
        self.conversion_table = table;
        self.last_updated = now;
        Ok(())
    }

    /// Sets the cached rate of one code; a rate of zero is refused and
    /// changes nothing.
    pub fn add(&mut self, currency_code: &str, exchange_rate: u64) -> (accepted: bool)
        requires
            old(self).wf(),
        ensures
            final(self).wf(),
            accepted == (exchange_rate > 0),
            accepted ==> final(self)@.rates == old(self)@.rates.insert(
                currency_code@,
                exchange_rate,
            ),
            !accepted ==> final(self)@.rates == old(self)@.rates,
            final(self)@.last_updated == old(self)@.last_updated,
    {
        self.conversion_table.insert(currency_code, exchange_rate)
    }
}

/// Two reads of a cache with no refresh between them agree in the rates and
/// in the time.
pub proof fn lemma_reads_agree(
    cache: ExpiringConversionCache,
    first: CacheSnapshot,
    second: CacheSnapshot,
)
    requires
        is_snapshot_of(first, cache),
        is_snapshot_of(second, cache),
    ensures
        first.table@ == second.table@,
        first.last_updated == second.last_updated,
{
}

} // verus!
