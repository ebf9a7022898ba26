//! Quote generation: which of the listed tickers a request selects, and
//! one fresh quote for each of them.
use vstd::prelude::*;
use crate::error::QuoutesError;
use crate::quote::{
    is_subsequence, picks, is_wanted, lemma_filter_filter, lemma_filter_is_subsequence,
    lemma_filter_keeps_all, wildcard,
};
use crate::text::{chars_equal, chars_of};
use crate::StockQuote;

verus! {

/// The tickers quotes are generated for, in generation order.
pub open spec fn listed_tickers() -> Seq<&'static str> {
    seq![
        "AAPL", "MSFT", "GOOGL", "AMZN", "NVDA", "META", "TSLA", "JPM", "JNJ", "V", "PG", "UNH",
        "HD", "DIS", "PYPL", "NFLX", "ADBE", "CRM", "INTC", "CSCO", "PFE", "ABT", "TMO", "ABBV",
        "LLY", "PEP", "COST", "TXN", "AVGO", "ACN", "QCOM", "DHR", "MDT", "NKE", "UPS", "RTX",
        "HON", "ORCL", "LIN", "AMGN", "LOW", "SBUX", "SPGI", "INTU", "ISRG", "T", "BMY", "DE",
        "PLD", "CI", "CAT", "GS", "UNP", "AMT", "AXP", "MS", "BLK", "GE", "SYK", "GILD", "MMM",
        "MO", "LMT", "FISV", "ADI", "BKNG", "C", "SO", "NEE", "ZTS", "TGT", "DUK", "ICE", "BDX",
        "PNC", "CMCSA", "SCHW", "MDLZ", "TJX", "USB", "CL", "EMR", "APD", "COF", "FDX", "AON",
        "WM", "ECL", "ITW", "VRTX", "D", "NSC", "PGR", "ETN", "FIS", "PSA", "KLAC", "MCD", "ADP",
        "APTV", "AEP", "MCO", "SHW", "DD", "ROP", "SLB", "HUM", "BSX", "NOC", "EW",
    ]
}

/// The texts of the strings of a list of string slices.
pub open spec fn str_views(v: Seq<&str>) -> Seq<Seq<char>> {
    v.map_values(|s: &str| s@)
}

/// The listed tickers that `requested` selects, in generation order: those
/// it names, or all when it names `*`.
pub open spec fn chosen_tickers(requested: Seq<Seq<char>>) -> Seq<&'static str> {
    listed_tickers().filter(|t: &'static str| is_wanted(requested, t@))
}

/// The listed tickers.
fn listed_tickers_vec() -> (v: Vec<&'static str>)
    ensures
        v@ == listed_tickers(),
{
    let v = vec![
        "AAPL", "MSFT", "GOOGL", "AMZN", "NVDA", "META", "TSLA", "JPM", "JNJ", "V", "PG", "UNH",
        "HD", "DIS", "PYPL", "NFLX", "ADBE", "CRM", "INTC", "CSCO", "PFE", "ABT", "TMO", "ABBV",
        "LLY", "PEP", "COST", "TXN", "AVGO", "ACN", "QCOM", "DHR", "MDT", "NKE", "UPS", "RTX",
        "HON", "ORCL", "LIN", "AMGN", "LOW", "SBUX", "SPGI", "INTU", "ISRG", "T", "BMY", "DE",
        "PLD", "CI", "CAT", "GS", "UNP", "AMT", "AXP", "MS", "BLK", "GE", "SYK", "GILD", "MMM",
        "MO", "LMT", "FISV", "ADI", "BKNG", "C", "SO", "NEE", "ZTS", "TGT", "DUK", "ICE", "BDX",
        "PNC", "CMCSA", "SCHW", "MDLZ", "TJX", "USB", "CL", "EMR", "APD", "COF", "FDX", "AON",
        "WM", "ECL", "ITW", "VRTX", "D", "NSC", "PGR", "ETN", "FIS", "PSA", "KLAC", "MCD", "ADP",
        "APTV", "AEP", "MCO", "SHW", "DD", "ROP", "SLB", "HUM", "BSX", "NOC", "EW",
    ];
    assert(v@ =~= listed_tickers());
    v
}

/// Whether `t` is one of `v`.
fn contains_str(v: &Vec<&str>, t: &str) -> (r: bool)
    ensures
        r == str_views(v@).contains(t@),
{
    let target = chars_of(t);
    for i in 0..v.len()
        invariant
            target@ == t@,
            forall|k: int| 0 <= k < i ==> v@[k]@ != t@,
    {
        let candidate = chars_of(v[i]);
        if chars_equal(&candidate, &target) {
            assert(str_views(v@)[i as int] == t@);
            return true;
        }
    }
    proof {
        if str_views(v@).contains(t@) {
            let k = choose|k: int| 0 <= k < str_views(v@).len() && str_views(v@)[k] == t@;
            assert(v@[k]@ == t@);
        }
    }
    false
}

/// The values drawn for one fresh quote: the price bits, the volume above
/// `BASE_VOLUME`, and the reading of the clock in milliseconds since the Unix
/// epoch (or the error of reading it).
pub struct IndicatorDraw {
    pub price: u64,
    pub volume_offset: u32,
    pub clock: Result<u64, QuoutesError>,
}

/// Whether `q` is the quote generated from `d`.
pub open spec fn made_from(q: StockQuote, d: IndicatorDraw) -> bool {
    &&& d.clock == Ok::<u64, QuoutesError>(q.timestamp)
    &&& q.price == d.price
    &&& q.volume == crate::BASE_VOLUME + d.volume_offset
}

/// Whether `q` is a quote generated from some value that `draw` can give.
pub open spec fn drawn_quote<F: Fn() -> IndicatorDraw>(draw: F, q: StockQuote) -> bool {
    exists|d: IndicatorDraw| call_ensures(draw, (), d) && #[trigger] made_from(q, d)
}

/// The tickers of a list of quotes.
pub open spec fn ticker_views(v: Seq<StockQuote>) -> Seq<Seq<char>> {
    v.map_values(|q: StockQuote| q.ticker@)
}

/// Generates one quote for each listed ticker that `tickers` selects, in
/// generation order, from values taken from `draw`, one draw per quote;
/// stops at the first draw whose clock reading failed and returns its error.
pub fn generate_quotes<F: Fn() -> IndicatorDraw>(tickers: Vec<&str>, draw: F) -> (r: Result<
    Vec<StockQuote>,
    QuoutesError,
>)
    requires
        call_requires(draw, ()),
        forall|d: IndicatorDraw|
            call_ensures(draw, (), d) ==> d.volume_offset <= u32::MAX - crate::BASE_VOLUME,
    ensures
        r matches Ok(v) ==> {
            &&& v@.len() == chosen_tickers(str_views(tickers@)).len()
            &&& ticker_views(v@) == str_views(chosen_tickers(str_views(tickers@)))
            &&& forall|i: int| 0 <= i < v@.len() ==> drawn_quote(draw, #[trigger] v@[i])
        },
        r matches Err(e) ==> {
            &&& chosen_tickers(str_views(tickers@)).len() > 0
            &&& exists|d: IndicatorDraw|
                #[trigger] call_ensures(draw, (), d) && d.clock == Err::<u64, QuoutesError>(e)
        },
{
    let ghost wanted = str_views(tickers@);
    let ghost pred = |t: &'static str| is_wanted(wanted, t@);
    let all = contains_str(&tickers, "*");
    proof {
        reveal_strlit("*");
        assert("*"@ =~= wildcard());
    }
    let listed = listed_tickers_vec();
    let mut result: Vec<StockQuote> = Vec::new();
    let ghost mut chosen: Seq<&'static str> = Seq::empty();
    for i in 0..listed.len()
        invariant
            listed@ == listed_tickers(),
            wanted == str_views(tickers@),
            all == wanted.contains(wildcard()),
            pred == (|t: &'static str| is_wanted(wanted, t@)),
            call_requires(draw, ()),
            forall|d: IndicatorDraw|
                call_ensures(draw, (), d) ==> d.volume_offset <= u32::MAX - crate::BASE_VOLUME,
            chosen == listed@.take(i as int).filter(pred),
            result@.len() == chosen.len(),
            forall|k: int| 0 <= k < result@.len() ==> #[trigger] result@[k].ticker@ == chosen[k]@,
            forall|k: int| 0 <= k < result@.len() ==> drawn_quote(draw, #[trigger] result@[k]),
    {
        let ticker = listed[i];
        proof {
            assert(listed@.take(i + 1) =~= listed@.take(i as int).push(ticker));
            listed@.take(i as int).lemma_filter_push(ticker, pred);
        }
        if all || contains_str(&tickers, ticker) {
            let d = draw();
            let ghost gd = d;
            let mut quote = StockQuote::new();
            match quote.generate_indicators(ticker, d.price, d.volume_offset, d.clock) {
                Ok(()) => {
                    assert(call_ensures(draw, (), gd) && made_from(quote, gd));
                    let ghost before = result@;
                    result.push(quote);
                    proof {
                        chosen = chosen.push(ticker);
                        assert forall|k: int| 0 <= k < result@.len() implies drawn_quote(
                            draw,
                            #[trigger] result@[k],
                        ) by {
                            if k < before.len() {
                                assert(result@[k] == before[k]);
                            } else {
                                assert(made_from(result@[k], gd));
                            }
                        }
                    }
                },
                Err(e) => {
                    proof {
                        assert(call_ensures(draw, (), gd) && gd.clock == Err::<u64, QuoutesError>(e));
                        lemma_filter_prefix(listed@, pred, i + 1);
                        assert(listed_tickers().filter(pred)[chosen.len() as int] == ticker);
                    }
                    return Err(e);
                },
            }
        }
    }
    assert(listed@.take(listed@.len() as int) =~= listed@);
    assert(ticker_views(result@) =~= str_views(chosen_tickers(wanted)));
    Ok(result)
}

/// The filter of a prefix is a prefix of the filter.
proof fn lemma_filter_prefix(s: Seq<&'static str>, pred: spec_fn(&'static str) -> bool, n: int)
    requires
        0 <= n <= s.len(),
    ensures
        s.take(n).filter(pred).len() <= s.filter(pred).len(),
        forall|k: int|
            0 <= k < s.take(n).filter(pred).len() ==> #[trigger] s.filter(pred)[k] == s.take(
                n,
            ).filter(pred)[k],
    decreases s.len() - n,
{
    if n < s.len() {
        lemma_filter_prefix(s, pred, n + 1);
        assert(s.take(n + 1) =~= s.take(n).push(s[n]));
        s.take(n).lemma_filter_push(s[n], pred);
    } else {
        assert(s.take(n) =~= s);
    }
}

/// A request for `*` generates a quote for every listed ticker, in order.
pub proof fn law_wildcard_generates_all(requested: Seq<Seq<char>>)
    requires
        requested.contains(wildcard()),
    ensures
        chosen_tickers(requested) == listed_tickers(),
{
    lemma_filter_keeps_all(listed_tickers(), |t: &'static str| is_wanted(requested, t@));
}

/// A request for fewer tickers makes quotes for a subsequence of the
/// tickers that a request for more tickers makes quotes for: those of the
/// latter that the former selects, in the same order.
pub proof fn law_smaller_request_chooses_subsequence(a: Seq<Seq<char>>, b: Seq<Seq<char>>)
    requires
        forall|t: Seq<char>| a.contains(t) ==> b.contains(t),
    ensures
        chosen_tickers(a) == chosen_tickers(b).filter(|t: &'static str| is_wanted(a, t@)),
        is_subsequence(chosen_tickers(a), chosen_tickers(b)),
{
    let pa = |t: &'static str| is_wanted(a, t@);
    let pb = |t: &'static str| is_wanted(b, t@);
    lemma_filter_filter(listed_tickers(), pb, pa);
    assert((|x: &'static str| pb(x) && pa(x)) =~= pa);
    lemma_filter_is_subsequence(chosen_tickers(b), pa);
}

/// The images of a subsequence form a subsequence of the images.
proof fn lemma_subsequence_map<A, B>(s: Seq<A>, t: Seq<A>, f: spec_fn(A) -> B)
    requires
        is_subsequence(s, t),
    ensures
        is_subsequence(s.map_values(f), t.map_values(f)),
{
    let idx = choose|idx: Seq<int>| picks(idx, s, t);
    assert(picks(idx, s.map_values(f), t.map_values(f)));
}

/// The quotes generated for a request for fewer tickers carry a
/// subsequence of the tickers of the quotes generated for a request for
/// more tickers (`generate_quotes` gives quotes whose tickers are the chosen
/// tickers).
pub proof fn law_smaller_request_generates_subsequence(
    a: Seq<Seq<char>>,
    b: Seq<Seq<char>>,
    generated_a: Seq<StockQuote>,
    generated_b: Seq<StockQuote>,
)
    requires
        forall|t: Seq<char>| a.contains(t) ==> b.contains(t),
        ticker_views(generated_a) == str_views(chosen_tickers(a)),
        ticker_views(generated_b) == str_views(chosen_tickers(b)),
    ensures
        is_subsequence(ticker_views(generated_a), ticker_views(generated_b)),
{
    law_smaller_request_chooses_subsequence(a, b);
    let f = |t: &'static str| t@;
    lemma_subsequence_map(chosen_tickers(a), chosen_tickers(b), f);
    assert(str_views(chosen_tickers(a)) =~= chosen_tickers(a).map_values(f));
    assert(str_views(chosen_tickers(b)) =~= chosen_tickers(b).map_values(f));
}

/// Without `*` in the request, the chosen tickers are the listed tickers
/// that the request names exactly, in listing order.
pub proof fn law_exact_ticker_choice(requested: Seq<Seq<char>>)
    requires
        !requested.contains(seq!['*']),
    ensures
        chosen_tickers(requested) == listed_tickers().filter(
            |t: &'static str| requested.contains(t@),
        ),
{
    assert(wildcard() =~= seq!['*']);
    assert((|t: &'static str| is_wanted(requested, t@)) =~= (|t: &'static str|
        requested.contains(t@)));
}

} // verus!
