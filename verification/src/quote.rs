//! Quotes, sets of quotes, the `ticker|price|volume|timestamp` text form of
//! a quote and the selection of quotes by ticker.
use vstd::prelude::*;
use vstd::std_specs::cmp::{PartialEqSpec, PartialEqSpecImpl};
use crate::error::QuoutesError;
use crate::text::{
    chars_of, decimal, lemma_decimal_has_no, lemma_parse_decimal, lemma_split_on_append_piece,
    lemma_split_on_plain, parse_unsigned, parse_unsigned_chars, push_decimal, split_chars, split_on,
    string_from_chars, string_views,
};

verus! {

/// The quote of one ticker at one moment.
///
/// `price` is the bit pattern (`f64::to_bits`) of the price, a binary64
/// floating-point number: the library carries it unchanged, and its decimal
/// text is produced and read where floating point is available. Two quotes
/// are equal when their prices are equal as floating-point numbers: a NaN
/// price equals nothing, and 0.0 equals -0.0.
#[derive(Debug, Clone)]
pub struct StockQuote {
    pub ticker: String,
    pub price: u64,
    pub volume: u32,
    pub timestamp: u64,
}

/// Whether the binary64 number with these bits is a NaN: all exponent bits
/// set and a non-zero fraction.
pub open spec fn is_nan_bits(b: u64) -> bool {
    (b & 0x7FF0_0000_0000_0000u64) == 0x7FF0_0000_0000_0000u64 && (b & 0x000F_FFFF_FFFF_FFFFu64)
        != 0
}

/// Whether the binary64 number with these bits is 0.0 or -0.0.
pub open spec fn is_zero_bits(b: u64) -> bool {
    (b & 0x7FFF_FFFF_FFFF_FFFFu64) == 0
}

/// Floating-point equality (`==` on `f64`) of two binary64 numbers given by
/// their bits: neither is a NaN, and their bits agree or both are zeros.
pub open spec fn same_price(a: u64, b: u64) -> bool {
    !is_nan_bits(a) && !is_nan_bits(b) && (a == b || (is_zero_bits(a) && is_zero_bits(b)))
}

/// Floating-point equality of two prices given by their bits.
pub fn prices_equal(a: u64, b: u64) -> (r: bool)
    ensures
        r == same_price(a, b),
{
    let a_nan = (a & 0x7FF0_0000_0000_0000u64) == 0x7FF0_0000_0000_0000u64 && (a
        & 0x000F_FFFF_FFFF_FFFFu64) != 0;
    let b_nan = (b & 0x7FF0_0000_0000_0000u64) == 0x7FF0_0000_0000_0000u64 && (b
        & 0x000F_FFFF_FFFF_FFFFu64) != 0;
    let a_zero = (a & 0x7FFF_FFFF_FFFF_FFFFu64) == 0;
    let b_zero = (b & 0x7FFF_FFFF_FFFF_FFFFu64) == 0;
    !a_nan && !b_nan && (a == b || (a_zero && b_zero))
}

impl PartialEq for StockQuote {
    fn eq(&self, other: &Self) -> (r: bool) {
        self.ticker == other.ticker && prices_equal(self.price, other.price) && self.volume
            == other.volume && self.timestamp == other.timestamp
    }
}

impl PartialEqSpecImpl for StockQuote {
    open spec fn obeys_eq_spec() -> bool {
        true
    }

    open spec fn eq_spec(&self, other: &StockQuote) -> bool {
        &&& self.ticker@ == other.ticker@
        &&& same_price(self.price, other.price)
        &&& self.volume == other.volume
        &&& self.timestamp == other.timestamp
    }
}

/// The text fields of a quote line: ticker, price text, volume, timestamp.
#[derive(Debug, Clone, PartialEq)]
pub struct QuoteRecord {
    pub ticker: String,
    pub price: String,
    pub volume: u32,
    pub timestamp: u64,
}

/// The text of a quote: `ticker|price|volume|timestamp`, the numbers in
/// decimal.
pub open spec fn record_text(ticker: Seq<char>, price: Seq<char>, volume: nat, timestamp: nat) -> Seq<
    char,
> {
    ((ticker.push('|') + price).push('|') + decimal(volume)).push('|') + decimal(timestamp)
}

/// The fields that a quote line holds: `Some` exactly when the line has
/// four `|`-separated fields and the third and fourth read as a `u32` and a
/// `u64`.
pub open spec fn record_fields(s: Seq<char>) -> Option<(Seq<char>, Seq<char>, nat, nat)> {
    let parts = split_on(s, '|');
    if parts.len() == 4 && parse_unsigned(parts[2], u32::MAX as nat) is Some && parse_unsigned(
        parts[3],
        u64::MAX as nat,
    ) is Some {
        Some(
            (
                parts[0],
                parts[1],
                parse_unsigned(parts[2], u32::MAX as nat)->0,
                parse_unsigned(parts[3], u64::MAX as nat)->0,
            ),
        )
    } else {
        None
    }
}

/// The ticker that selects every quote.
pub open spec fn wildcard() -> Seq<char> {
    seq!['*']
}

/// Whether a quote of `ticker` is wanted by a subscriber to `wanted`: the
/// ticker is listed, or `*` is.
pub open spec fn is_wanted(wanted: Seq<Seq<char>>, ticker: Seq<char>) -> bool {
    wanted.contains(ticker) || wanted.contains(wildcard())
}

/// The quotes of `quotes` that `wanted` selects, in their order.
pub open spec fn selected_quotes(quotes: Seq<StockQuote>, wanted: Seq<Seq<char>>) -> Seq<StockQuote> {
    quotes.filter(|q: StockQuote| is_wanted(wanted, q.ticker@))
}

/// The text of a list of quotes, one line each, every line ended by `\n`;
/// `prices[i]` is the price text of `quotes[i]`.
pub open spec fn listing_text(quotes: Seq<StockQuote>, prices: Seq<Seq<char>>) -> Seq<char>
    decreases quotes.len(),
{
    if quotes.len() == 0 || prices.len() == 0 {
        Seq::empty()
    } else {
        let q = quotes.last();
        listing_text(quotes.drop_last(), prices.drop_last()) + record_text(
            q.ticker@,
            prices.last(),
            q.volume as nat,
            q.timestamp as nat,
        ).push('\n')
    }
}

/// Whether `s` is the wildcard ticker `*`.
pub fn is_wildcard(s: &String) -> (r: bool)
    ensures
        r == (s@ == wildcard()),
{
    let v = chars_of(s.as_str());
    let r = v.len() == 1 && v[0] == '*';
    if r {
        assert(v@ =~= wildcard());
    }
    r
}

/// Whether `t` is one of the strings of `v`.
pub fn contains_string(v: &Vec<String>, t: &String) -> (r: bool)
    ensures
        r == string_views(v@).contains(t@),
{
    for i in 0..v.len()
        invariant
            forall|k: int| 0 <= k < i ==> v@[k]@ != t@,
    {
        if v[i] == *t {
            assert(string_views(v@)[i as int] == t@);
            return true;
        }
    }
    proof {
        if string_views(v@).contains(t@) {
            let k = choose|k: int| 0 <= k < string_views(v@).len() && string_views(v@)[k] == t@;
            assert(v@[k]@ == t@);
        }
    }
    false
}

/// Whether `v` holds the wildcard ticker.
pub fn contains_wildcard(v: &Vec<String>) -> (r: bool)
    ensures
        r == string_views(v@).contains(wildcard()),
{
    for i in 0..v.len()
        invariant
            forall|k: int| 0 <= k < i ==> v@[k]@ != wildcard(),
    {
        if is_wildcard(&v[i]) {
            assert(string_views(v@)[i as int] == wildcard());
            return true;
        }
    }
    proof {
        if string_views(v@).contains(wildcard()) {
            let k = choose|k: int|
                0 <= k < string_views(v@).len() && string_views(v@)[k] == wildcard();
            assert(v@[k]@ == wildcard());
        }
    }
    false
}

/// A quote line reads back as the fields it was written from, provided
/// neither the ticker nor the price text holds `|`.
pub proof fn law_quote_line_round_trip(
    ticker: Seq<char>,
    price: Seq<char>,
    volume: u32,
    timestamp: u64,
)
    requires
        !ticker.contains('|'),
        !price.contains('|'),
    ensures
        record_fields(record_text(ticker, price, volume as nat, timestamp as nat)) == Some(
            (ticker, price, volume as nat, timestamp as nat),
        ),
{
    let v = decimal(volume as nat);
    let t = decimal(timestamp as nat);
    lemma_decimal_has_no(volume as nat, '|');
    lemma_decimal_has_no(timestamp as nat, '|');
    lemma_split_on_plain(ticker, '|');
    lemma_split_on_append_piece(ticker, price, '|');
    lemma_split_on_append_piece(ticker.push('|') + price, v, '|');
    lemma_split_on_append_piece((ticker.push('|') + price).push('|') + v, t, '|');
    lemma_parse_decimal(volume as nat, u32::MAX as nat);
    lemma_parse_decimal(timestamp as nat, u64::MAX as nat);
    let parts = split_on(record_text(ticker, price, volume as nat, timestamp as nat), '|');
    assert(parts =~= seq![ticker, price, v, t]);
}

/// A filter that every element passes keeps the whole sequence.
pub proof fn lemma_filter_keeps_all<A>(s: Seq<A>, pred: spec_fn(A) -> bool)
    requires
        forall|i: int| 0 <= i < s.len() ==> pred(#[trigger] s[i]),
    ensures
        s.filter(pred) == s,
    decreases s.len(),
{
    reveal(Seq::filter);
    if s.len() > 0 {
        lemma_filter_keeps_all(s.drop_last(), pred);
        assert(s.drop_last().push(s.last()) =~= s);
    }
}

/// A subscriber to `*` is sent every quote, in order.
pub proof fn law_wildcard_selects_all(quotes: Seq<StockQuote>, wanted: Seq<Seq<char>>)
    requires
        wanted.contains(wildcard()),
    ensures
        selected_quotes(quotes, wanted) == quotes,
{
    lemma_filter_keeps_all(quotes, |q: StockQuote| is_wanted(wanted, q.ticker@));
}

/// A subscriber is sent exactly the quotes whose ticker it asked for (or
/// all of them when it asked for `*`), each as often as it occurs.
pub proof fn law_selection_members(quotes: Seq<StockQuote>, wanted: Seq<Seq<char>>, q: StockQuote)
    ensures
        selected_quotes(quotes, wanted).contains(q) <==> quotes.contains(q) && is_wanted(
            wanted,
            q.ticker@,
        ),
        selected_quotes(quotes, wanted).len() <= quotes.len(),
{
    let pred = |x: StockQuote| is_wanted(wanted, x.ticker@);
    quotes.lemma_filter_len(pred);
    if quotes.contains(q) && pred(q) {
        let i = choose|i: int| 0 <= i < quotes.len() && quotes[i] == q;
        quotes.lemma_filter_contains(pred, i);
    }
    if quotes.filter(pred).contains(q) {
        quotes.lemma_filter_contains_rev(pred, q);
        let j = choose|j: int| 0 <= j < quotes.filter(pred).len() && quotes.filter(pred)[j] == q;
        quotes.lemma_filter_pred(pred, j);
    }
}

/// `idx` picks the elements of `s` out of `t`, at increasing positions.
pub open spec fn picks<A>(idx: Seq<int>, s: Seq<A>, t: Seq<A>) -> bool {
    &&& idx.len() == s.len()
    &&& forall|i: int| 0 <= i < idx.len() ==> 0 <= #[trigger] idx[i] < t.len() && t[idx[i]] == s[i]
    &&& forall|i: int, j: int| 0 <= i < j < idx.len() ==> #[trigger] idx[i] < #[trigger] idx[j]
}

/// `s` is `t` with some elements deleted, the others kept in order.
pub open spec fn is_subsequence<A>(s: Seq<A>, t: Seq<A>) -> bool {
    exists|idx: Seq<int>| #[trigger] picks(idx, s, t)
}

/// The positions that a filter keeps.
pub proof fn lemma_filter_picks<A>(t: Seq<A>, pred: spec_fn(A) -> bool) -> (idx: Seq<int>)
    ensures
        picks(idx, t.filter(pred), t),
    decreases t.len(),
{
    reveal(Seq::filter);
    if t.len() == 0 {
        Seq::empty()
    } else {
        let init = t.drop_last();
        let prev = lemma_filter_picks(init, pred);
        let f = init.filter(pred);
        assert(forall|i: int| 0 <= i < prev.len() ==> t[prev[i]] == init[prev[i]]);
        if pred(t.last()) {
            let idx = prev.push(t.len() - 1);
            assert(t.filter(pred) == f.push(t.last()));
            assert forall|i: int| 0 <= i < idx.len() implies 0 <= #[trigger] idx[i] < t.len()
                && t[idx[i]] == t.filter(pred)[i] by {
                if i < prev.len() {
                    assert(idx[i] == prev[i]);
                }
            }
            assert forall|i: int, j: int| 0 <= i < j < idx.len() implies #[trigger] idx[i]
                < #[trigger] idx[j] by {
                if j < prev.len() {
                    assert(idx[i] == prev[i] && idx[j] == prev[j]);
                } else {
                    assert(idx[i] == prev[i]);
                }
            }
            idx
        } else {
            prev
        }
    }
}

/// What a filter keeps is a subsequence of what it was given.
pub proof fn lemma_filter_is_subsequence<A>(t: Seq<A>, pred: spec_fn(A) -> bool)
    ensures
        is_subsequence(t.filter(pred), t),
{
    let idx = lemma_filter_picks(t, pred);
}

/// Filtering twice keeps what passes both tests.
pub proof fn lemma_filter_filter<A>(t: Seq<A>, p: spec_fn(A) -> bool, r: spec_fn(A) -> bool)
    ensures
        t.filter(p).filter(r) == t.filter(|x: A| p(x) && r(x)),
    decreases t.len(),
{
    let pr = |x: A| p(x) && r(x);
    if t.len() > 0 {
        let init = t.drop_last();
        let x = t.last();
        lemma_filter_filter(init, p, r);
        assert(init.push(x) =~= t);
        init.lemma_filter_push(x, p);
        init.lemma_filter_push(x, pr);
        init.filter(p).lemma_filter_push(x, r);
    } else {
        reveal(Seq::filter);
    }
}

/// Cutting the quotes down to one ticker list and then to another gives the
/// same quotes as doing so in the other order.
pub proof fn law_filter_commutes(quotes: Seq<StockQuote>, a: Seq<Seq<char>>, b: Seq<Seq<char>>)
    ensures
        selected_quotes(selected_quotes(quotes, a), b) == selected_quotes(
            selected_quotes(quotes, b),
            a,
        ),
{
    let pa = |q: StockQuote| is_wanted(a, q.ticker@);
    let pb = |q: StockQuote| is_wanted(b, q.ticker@);
    lemma_filter_filter(quotes, pa, pb);
    lemma_filter_filter(quotes, pb, pa);
    assert((|x: StockQuote| pa(x) && pb(x)) =~= (|x: StockQuote| pb(x) && pa(x)));
}

/// Cutting the quotes down to the same ticker list twice changes nothing
/// the second time.
pub proof fn law_filter_idempotent(quotes: Seq<StockQuote>, a: Seq<Seq<char>>)
    ensures
        selected_quotes(selected_quotes(quotes, a), a) == selected_quotes(quotes, a),
{
    let pa = |q: StockQuote| is_wanted(a, q.ticker@);
    lemma_filter_filter(quotes, pa, pa);
    assert((|x: StockQuote| pa(x) && pa(x)) =~= pa);
}

/// A subscriber to fewer tickers is sent a subsequence of what a subscriber
/// to more tickers is sent, which is a subsequence of all the quotes.
pub proof fn law_smaller_request_subsequence(
    quotes: Seq<StockQuote>,
    a: Seq<Seq<char>>,
    b: Seq<Seq<char>>,
)
    requires
        forall|t: Seq<char>| a.contains(t) ==> b.contains(t),
    ensures
        selected_quotes(quotes, a) == selected_quotes(selected_quotes(quotes, b), a),
        is_subsequence(selected_quotes(quotes, a), selected_quotes(quotes, b)),
        is_subsequence(selected_quotes(quotes, b), quotes),
{
    let pa = |q: StockQuote| is_wanted(a, q.ticker@);
    let pb = |q: StockQuote| is_wanted(b, q.ticker@);
    lemma_filter_filter(quotes, pb, pa);
    assert((|x: StockQuote| pb(x) && pa(x)) =~= pa);
    lemma_filter_is_subsequence(quotes.filter(pb), pa);
    lemma_filter_is_subsequence(quotes, pb);
}

/// Equal quotes have the same ticker, volume and timestamp, and prices that
/// are the same number (the same bits, or 0.0 and -0.0); quotes that agree
/// in every field and whose price is not a NaN are equal; equality does not
/// depend on the order of the two quotes.
pub proof fn law_quote_equality(a: StockQuote, b: StockQuote)
    ensures
        PartialEqSpec::eq_spec(&a, &b) ==> {
            &&& a.ticker@ == b.ticker@
            &&& a.volume == b.volume
            &&& a.timestamp == b.timestamp
            &&& (a.price == b.price || ((a.price & 0x7FFF_FFFF_FFFF_FFFFu64) == 0 && (b.price
                & 0x7FFF_FFFF_FFFF_FFFFu64) == 0))
        },
        a.ticker@ != b.ticker@ ==> !PartialEqSpec::eq_spec(&a, &b),
        (a.ticker@ == b.ticker@ && a.volume == b.volume && a.timestamp == b.timestamp && a.price
            == b.price && !((a.price & 0x7FF0_0000_0000_0000u64) == 0x7FF0_0000_0000_0000u64 && (
        a.price & 0x000F_FFFF_FFFF_FFFFu64) != 0)) ==> PartialEqSpec::eq_spec(&a, &b),
        PartialEqSpec::eq_spec(&a, &b) == PartialEqSpec::eq_spec(&b, &a),
{
}

/// Without `*` among the wanted tickers, a quote is selected exactly when
/// its ticker is one of them, compared as whole texts; with `*`, every quote
/// is selected.
pub proof fn law_exact_ticker_match(quotes: Seq<StockQuote>, wanted: Seq<Seq<char>>)
    ensures
        !wanted.contains(seq!['*']) ==> selected_quotes(quotes, wanted) == quotes.filter(
            |q: StockQuote| wanted.contains(q.ticker@),
        ),
        !wanted.contains(seq!['*']) ==> forall|t: Seq<char>|
            #[trigger] is_wanted(wanted, t) <==> wanted.contains(t),
        wanted.contains(seq!['*']) ==> forall|t: Seq<char>| #[trigger] is_wanted(wanted, t),
{
    assert(wildcard() =~= seq!['*']);
    if !wanted.contains(seq!['*']) {
        assert((|q: StockQuote| is_wanted(wanted, q.ticker@)) =~= (|q: StockQuote|
            wanted.contains(q.ticker@)));
    }
}

/// The listing of quotes followed by one more quote is the listing of the
/// first quotes followed by the line of that quote, with its own price text,
/// and a line feed; the listing of no quotes is empty.
pub proof fn law_listing_lines(
    quotes: Seq<StockQuote>,
    prices: Seq<Seq<char>>,
    q: StockQuote,
    price: Seq<char>,
)
    requires
        quotes.len() == prices.len(),
    ensures
        listing_text(quotes.push(q), prices.push(price)) == listing_text(quotes, prices)
            + record_text(q.ticker@, price, q.volume as nat, q.timestamp as nat).push('\n'),
        listing_text(Seq::empty(), Seq::empty()) == Seq::<char>::empty(),
{
    assert(quotes.push(q).drop_last() =~= quotes);
    assert(prices.push(price).drop_last() =~= prices);
}

impl StockQuote {
    /// An empty quote: no ticker, price 0.0, volume 0, timestamp 0.
    pub fn new() -> (q: Self)
        ensures
            q.ticker@ == Seq::<char>::empty(),
            q.price == 0,
            q.volume == 0,
            q.timestamp == 0,
    {
        StockQuote { ticker: String::new(), price: 0, volume: 0, timestamp: 0 }
    }

    /// The quote line of this quote, given the decimal text of its price.
    pub fn to_string_with_price(&self, price: &str) -> (s: String)
        ensures
            s@ == record_text(self.ticker@, price@, self.volume as nat, self.timestamp as nat),
    {
        let mut v = chars_of(self.ticker.as_str());
        v.push('|');
        let mut p = chars_of(price);
        v.append(&mut p);
        v.push('|');
        push_decimal(&mut v, self.volume as u64);
        v.push('|');
        push_decimal(&mut v, self.timestamp);
        let s = string_from_chars(&v);
        assert(s@ =~= record_text(self.ticker@, price@, self.volume as nat, self.timestamp as nat));
        s
    }

    /// Reads the fields of a quote line `ticker|price|volume|timestamp`; the
    /// price is left as text.
    pub fn parse_record(s: &str) -> (r: Option<QuoteRecord>)
        ensures
            r is Some <==> record_fields(s@) is Some,
            r matches Some(q) ==> record_fields(s@) == Some(
                (q.ticker@, q.price@, q.volume as nat, q.timestamp as nat),
            ),
    {
        let v = chars_of(s);
        let mut parts = split_chars(&v, '|');
        if parts.len() != 4 {
            return None;
        }
        let volume_chars = chars_of(parts[2].as_str());
        let timestamp_chars = chars_of(parts[3].as_str());
        let volume = parse_unsigned_chars(&volume_chars, 0xFFFF_FFFF);
        let timestamp = parse_unsigned_chars(&timestamp_chars, 0xFFFF_FFFF_FFFF_FFFF);
        match (volume, timestamp) {
            (Some(volume), Some(timestamp)) => {
                let ghost parts_view = string_views(parts@);
                let price = parts.remove(1);
                let ticker = parts.remove(0);
                assert(ticker@ == parts_view[0]);
                assert(price@ == parts_view[1]);
                Some(QuoteRecord { ticker, price, volume: volume as u32, timestamp })
            },
            _ => None,
        }
    }

    /// Fills the quote with freshly drawn indicators: the ticker, the price
    /// bits and a volume of `BASE_VOLUME` plus `volume_offset`; then the time
    /// in milliseconds since the Unix epoch, as read from the clock. When the
    /// clock could not be read, that error is returned and the timestamp is
    /// left as it was.
    pub fn generate_indicators(
        &mut self,
        ticker: &str,
        price: u64,
        volume_offset: u32,
        clock: Result<u64, QuoutesError>,
    ) -> (r: Result<(), QuoutesError>)
        requires
            volume_offset <= u32::MAX - crate::BASE_VOLUME,
        ensures
            final(self).ticker@ == ticker@,
            final(self).price == price,
            final(self).volume == crate::BASE_VOLUME + volume_offset,
            match clock {
                Ok(t) => r is Ok && final(self).timestamp == t,
                Err(e) => r == Err::<(), QuoutesError>(e) && final(self).timestamp == old(
                    self,
                ).timestamp,
            },
    {
        let volume = crate::BASE_VOLUME + volume_offset;
        self.ticker = ticker.to_owned();
        self.price = price;
        self.volume = volume;
        match clock {
            Ok(t) => {
                self.timestamp = t;
                Ok(())
            },
            Err(e) => Err(e),
        }
    }
}

impl Default for StockQuote {
    fn default() -> (q: Self)
        ensures
            q.ticker@ == Seq::<char>::empty(),
            q.price == 0,
            q.volume == 0,
            q.timestamp == 0,
    {
        Self::new()
    }
}

/// A list of quotes, in the order they were produced.
#[derive(Debug, Clone, PartialEq)]
pub struct StockQuoteSet {
    pub tickers: Vec<StockQuote>,
}

impl StockQuoteSet {
    /// An empty set.
    pub fn new() -> (s: Self)
        ensures
            s.tickers@ == Seq::<StockQuote>::empty(),
    {
        StockQuoteSet { tickers: Vec::new() }
    }

    /// The number of quotes.
    pub fn get_size(&self) -> (n: usize)
        ensures
            n == self.tickers@.len(),
    {
        self.tickers.len()
    }

    /// Appends a quote.
    pub fn push(&mut self, item: StockQuote)
        ensures
            final(self).tickers@ == old(self).tickers@.push(item),
    {
        self.tickers.push(item)
    }

    /// Replaces the quotes.
    pub fn set_quotes(&mut self, result: Vec<StockQuote>)
        ensures
            final(self).tickers@ == result@,
    {
        self.tickers = result;
    }

    /// The quotes.
    pub fn get_quotes(self) -> (v: Vec<StockQuote>)
        ensures
            v@ == self.tickers@,
    {
        self.tickers
    }

    /// The quotes whose ticker `tickers_to_filter` lists, or all of them when
    /// it lists `*`, in their order.
    pub fn filter(self, tickers_to_filter: Vec<String>) -> (r: StockQuoteSet)
        ensures
            r.tickers@ == selected_quotes(self.tickers@, string_views(tickers_to_filter@)),
    {
        let ghost wanted = string_views(tickers_to_filter@);
        let ghost pred = |q: StockQuote| is_wanted(wanted, q.ticker@);
        let all = contains_wildcard(&tickers_to_filter);
        let ghost src = self.tickers@;
        let mut kept: Vec<StockQuote> = Vec::new();
        for q in it: self.tickers.into_iter()
            invariant
                it.seq() == src,
                wanted == string_views(tickers_to_filter@),
                all == wanted.contains(wildcard()),
                pred == (|q: StockQuote| is_wanted(wanted, q.ticker@)),
                kept@ == src.take(it.index()).filter(pred),
        {
            proof {
                assert(src.take(it.index() + 1) =~= src.take(it.index()).push(q));
                src.take(it.index()).lemma_filter_push(q, pred);
            }
            if all || contains_string(&tickers_to_filter, &q.ticker) {
                kept.push(q);
            }
        }
        assert(src.take(src.len() as int) =~= src);
        let mut result = StockQuoteSet::new();
        result.set_quotes(kept);
        result
    }

    /// The text of the set: the line of each quote followed by `\n`, given
    /// the decimal price text of each quote, in the same order.
    pub fn to_string_with_prices(&self, prices: &Vec<String>) -> (s: String)
        requires
            prices@.len() == self.tickers@.len(),
        ensures
            s@ == listing_text(self.tickers@, string_views(prices@)),
    {
        let mut s = String::new();
        let ghost quotes = self.tickers@;
        let ghost texts = string_views(prices@);
        for i in 0..self.tickers.len()
            invariant
                quotes == self.tickers@,
                texts == string_views(prices@),
                prices@.len() == quotes.len(),
                s@ == listing_text(quotes.take(i as int), texts.take(i as int)),
        {
            let line = self.tickers[i].to_string_with_price(prices[i].as_str());
            s.append(line.as_str());
            s.append("\n");
            proof {
                assert(quotes.take(i + 1).drop_last() =~= quotes.take(i as int));
                assert(texts.take(i + 1).drop_last() =~= texts.take(i as int));
                reveal_strlit("\n");
                assert(s@ =~= listing_text(quotes.take(i + 1), texts.take(i + 1)));
            }
        }
        assert(quotes.take(quotes.len() as int) =~= quotes);
        assert(texts.take(texts.len() as int) =~= texts);
        s
    }
}

impl Default for StockQuoteSet {
    fn default() -> (s: Self)
        ensures
            s.tickers@ == Seq::<StockQuote>::empty(),
    {
        Self::new()
    }
}

} // verus!
