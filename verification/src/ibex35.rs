//! The Ibex35 index: a container of the companies the index lists, with
//! lookups by ticker and by (partial, case-insensitive) name.

use vstd::prelude::*;

use crate::ibex_company::IbexCompany;
use crate::text::{contains_ci, str_contains_ci, str_eq};

verus! {

/// A company's name matches the query when the query occurs in the name,
/// comparing ASCII letters without regard to case.
pub open spec fn name_matches(c: IbexCompany, query: Seq<char>) -> bool {
    contains_ci(c.spec_name(), query)
}

/// The Ibex35 index, a container for the companies it lists. The market's
/// own data — name, trading hours, currency — is fixed.
#[derive(Debug)]
pub struct Ibex35Market {
    name: String,
    open_time: String,
    close_time: String,
    currency: String,
    companies: Vec<IbexCompany>,
}

impl Ibex35Market {
    /// The companies of the market, in storage order.
    pub closed spec fn spec_companies(&self) -> Seq<IbexCompany> {
        self.companies@
    }

    /// Well-formed: no two companies share a ticker, as they came from a
    /// map keyed by ticker.
    pub open spec fn wf(&self) -> bool {
        forall|i: int, j: int|
            0 <= i < j < self.spec_companies().len() ==> (#[trigger] self.spec_companies()[
            i]).spec_ticker() != (#[trigger] self.spec_companies()[j]).spec_ticker()
    }

    /// Build the market from the companies it currently lists, one per
    /// ticker. Whether the companies really form today's index is the
    /// caller's concern; the constructor checks nothing beyond ticker
    /// uniqueness, which the requires states.
    pub fn new(companies: Vec<IbexCompany>) -> (r: Ibex35Market)
        requires
            forall|i: int, j: int|
                0 <= i < j < companies@.len() ==> (#[trigger] companies@[i]).spec_ticker() != (
                #[trigger] companies@[j]).spec_ticker(),
        ensures
            r.wf(),
            r.spec_companies() == companies@,
            r.spec_market_name() == "BME Ibex35 Index"@,
            r.spec_open_time() == "08:00:00"@,
            r.spec_close_time() == "16:30:00"@,
            r.spec_currency() == "euro"@,
    {
        Ibex35Market {
            name: "BME Ibex35 Index".to_owned(),
            open_time: "08:00:00".to_owned(),
            close_time: "16:30:00".to_owned(),
            currency: "euro".to_owned(),
            companies,
        }
    }

    /// The market's name.
    pub closed spec fn spec_market_name(&self) -> Seq<char> {
        self.name@
    }

    /// The market's opening time (UTC).
    pub closed spec fn spec_open_time(&self) -> Seq<char> {
        self.open_time@
    }

    /// The market's closing time (UTC).
    pub closed spec fn spec_close_time(&self) -> Seq<char> {
        self.close_time@
    }

    /// The market's currency code.
    pub closed spec fn spec_currency(&self) -> Seq<char> {
        self.currency@
    }

    /// Get the name of the market.
    pub fn market_name(&self) -> (r: &str)
        ensures
            r@ == self.spec_market_name(),
    {
        self.name.as_str()
    }

    /// Get the open time of the market (UTC): the Ibex35 opens at 08:00:00.
    pub fn open_time(&self) -> (r: &str)
        ensures
            r@ == self.spec_open_time(),
    {
        self.open_time.as_str()
    }

    /// Get the close time of the market (UTC): the Ibex35 closes at
    /// 16:30:00.
    pub fn close_time(&self) -> (r: &str)
        ensures
            r@ == self.spec_close_time(),
    {
        self.close_time.as_str()
    }

    /// Get the currency code of the market: the Ibex35 trades in euro.
    pub fn currency(&self) -> (r: &str)
        ensures
            r@ == self.spec_currency(),
    {
        self.currency.as_str()
    }

    /// List the tickers of the stocks included in the market, one per
    /// company, in storage order.
    pub fn list_tickers(&self) -> (r: Vec<&String>)
        ensures
            r@.len() == self.spec_companies().len(),
            forall|i: int|
                0 <= i < r@.len() ==> (#[trigger] r@[i])@ == self.spec_companies()[i].spec_ticker(),
    {
        let n: usize = self.companies.len();
        let mut tickers: Vec<&String> = Vec::new();
        let mut i: usize = 0;
        while i < n
            invariant
                0 <= i <= n,
                n == self.companies@.len(),
                tickers@.len() == i,
                forall|j: int|
                    0 <= j < i ==> (#[trigger] tickers@[j])@ == self.spec_companies()[
                    j].spec_ticker(),
            decreases n - i,
        {
            let t = self.companies[i].ticker_field();
            tickers.push(t);
            i = i + 1;
        }
        tickers
    }

    /// Get every company included in the market, in storage order.
    pub fn get_companies(&self) -> (r: Vec<&IbexCompany>)
        ensures
            r@.len() == self.spec_companies().len(),
            forall|i: int| 0 <= i < r@.len() ==> *(#[trigger] r@[i]) == self.spec_companies()[i],
    {
        let n: usize = self.companies.len();
        let mut out: Vec<&IbexCompany> = Vec::new();
        let mut i: usize = 0;
        while i < n
            invariant
                0 <= i <= n,
                n == self.companies@.len(),
                out@.len() == i,
                forall|j: int| 0 <= j < i ==> *(#[trigger] out@[j]) == self.spec_companies()[j],
            decreases n - i,
        {
            out.push(&self.companies[i]);
            i = i + 1;
        }
        out
    }

    /// Search the market for stocks whose name contains `name`, without
    /// regard to ASCII case: an ambiguous query may match several stocks.
    /// Yields nothing when no stock matches.
    pub fn stock_by_name(&self, name: &str) -> (r: Option<Vec<&IbexCompany>>)
        ensures
            r is Some <==> (exists|i: int|
                0 <= i < self.spec_companies().len() && name_matches(
                    #[trigger] self.spec_companies()[i],
                    name@,
                )),
            r matches Some(v) ==> {
                &&& v@.len() >= 1
                &&& forall|j: int|
                    0 <= j < v@.len() ==> name_matches(*(#[trigger] v@[j]), name@)
                        && self.spec_companies().contains(*v@[j])
                &&& forall|i: int|
                    0 <= i < self.spec_companies().len() && name_matches(
                        #[trigger] self.spec_companies()[i],
                        name@,
                    ) ==> v@.contains(&self.spec_companies()[i])
            },
    {
        let n: usize = self.companies.len();
        let mut found: Vec<&IbexCompany> = Vec::new();
        let mut i: usize = 0;
        while i < n
            invariant
                0 <= i <= n,
                n == self.companies@.len(),
                forall|j: int|
                    0 <= j < found@.len() ==> name_matches(*(#[trigger] found@[j]), name@)
                        && self.spec_companies().contains(*found@[j]),
                forall|k: int|
                    0 <= k < i && name_matches(#[trigger] self.spec_companies()[k], name@)
                        ==> found@.contains(&self.spec_companies()[k]),
                (exists|k: int|
                    0 <= k < i && name_matches(#[trigger] self.spec_companies()[k], name@))
                    <==> found@.len() >= 1,
            decreases n - i,
        {
            let c = &self.companies[i];
            if str_contains_ci(c.name(), name) {
                let ghost pre = found@;
                found.push(c);
                proof {
                    assert(self.spec_companies().contains(self.spec_companies()[i as int]));
                    assert(found@.last() == &self.spec_companies()[i as int]);
                    assert(forall|k: int|
                        0 <= k < pre.len() ==> found@[k] == #[trigger] pre[k]);
                    assert(forall|k: int|
                        0 <= k < i && name_matches(#[trigger] self.spec_companies()[k], name@)
                            ==> found@.contains(&self.spec_companies()[k])) by {
                        assert forall|k: int|
                            0 <= k < i && name_matches(
                                #[trigger] self.spec_companies()[k],
                                name@,
                            ) implies found@.contains(&self.spec_companies()[k]) by {
                            let j = choose|j: int|
                                0 <= j < pre.len() && pre[j] == &self.spec_companies()[k];
                            assert(found@[j] == &self.spec_companies()[k]);
                        }
                    }
                }
            }
            i = i + 1;
        }
        if found.len() > 0 {
            Some(found)
        } else {
            None
        }
    }

    /// Get the company whose ticker equals `ticker` exactly; partial
    /// tickers match nothing.
    pub fn stock_by_ticker(&self, ticker: &str) -> (r: Option<&IbexCompany>)
        requires
            self.wf(),
        ensures
            r is Some <==> (exists|i: int|
                0 <= i < self.spec_companies().len() && (#[trigger] self.spec_companies()[
                i]).spec_ticker() == ticker@),
            r matches Some(c) ==> self.spec_companies().contains(*c) && c.spec_ticker() == ticker@,
    {
        let n: usize = self.companies.len();
        let mut i: usize = 0;
        while i < n
            invariant
                0 <= i <= n,
                n == self.companies@.len(),
                forall|j: int|
                    0 <= j < i ==> (#[trigger] self.spec_companies()[j]).spec_ticker() != ticker@,
            decreases n - i,
        {
            if str_eq(self.companies[i].ticker(), ticker) {
                proof {
                    assert(self.spec_companies().contains(self.spec_companies()[i as int]));
                }
                return Some(&self.companies[i]);
            }
            i = i + 1;
        }
        None
    }
}

} // verus!
