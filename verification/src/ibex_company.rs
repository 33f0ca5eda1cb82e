//! A company included in an index of the Ibex family.

use vstd::prelude::*;

use crate::errors::DbError;

verus! {

/// Descriptor of a company listed in an Ibex index: the usual short name,
/// the ticker, the ISIN, and optionally the full legal name and the Spanish
/// fiscal id (NIF) for companies registered in Spain.
#[derive(Debug)]
pub struct IbexCompany {
    full_name: Option<String>,
    short_name: String,
    ticker: String,
    isin: String,
    nif: Option<String>,
}

/// The characters of an optional text field, when it is there.
pub open spec fn opt_text(o: Option<String>) -> Option<Seq<char>> {
    match o {
        Some(s) => Some(s@),
        None => None,
    }
}

impl IbexCompany {
    /// The usual name.
    pub closed spec fn spec_name(&self) -> Seq<char> {
        self.short_name@
    }

    /// The ticker.
    pub closed spec fn spec_ticker(&self) -> Seq<char> {
        self.ticker@
    }

    /// The ISIN.
    pub closed spec fn spec_isin(&self) -> Seq<char> {
        self.isin@
    }

    /// The full legal name, when one was given.
    pub closed spec fn spec_full_name(&self) -> Option<Seq<char>> {
        opt_text(self.full_name)
    }

    /// The NIF, when one was given.
    pub closed spec fn spec_extra_id(&self) -> Option<Seq<char>> {
        opt_text(self.nif)
    }

    /// Build a company descriptor. The inputs are carried as given; no
    /// format check is made.
    pub fn new(fname: Option<&str>, sname: &str, ticker: &str, isin: &str, nif: Option<&str>) -> (r:
        IbexCompany)
        ensures
            r.spec_name() == sname@,
            r.spec_ticker() == ticker@,
            r.spec_isin() == isin@,
            r.spec_full_name() == (match fname {
                Some(f) => Some(f@),
                None => None::<Seq<char>>,
            }),
            r.spec_extra_id() == (match nif {
                Some(n) => Some(n@),
                None => None::<Seq<char>>,
            }),
    {
        IbexCompany {
            full_name: match fname {
                Some(f) => Some(f.to_owned()),
                None => None,
            },
            short_name: sname.to_owned(),
            ticker: ticker.to_owned(),
            isin: isin.to_owned(),
            nif: match nif {
                Some(n) => Some(n.to_owned()),
                None => None,
            },
        }
    }

    /// Build a company descriptor from optional fields, as a store row
    /// yields them: the short name, ticker and ISIN are required, the full
    /// name and the NIF stay optional. Fails with a missing-information
    /// error exactly when a required field is absent.
    pub fn from_partial(
        full_name: Option<String>,
        name: Option<String>,
        ticker: Option<String>,
        isin: Option<String>,
        extra_id: Option<String>,
    ) -> (r: Result<IbexCompany, DbError>)
        ensures
            r is Ok <==> name is Some && ticker is Some && isin is Some,
            r matches Ok(c) ==> {
                &&& Some(c.spec_name()) == opt_text(name)
                &&& Some(c.spec_ticker()) == opt_text(ticker)
                &&& Some(c.spec_isin()) == opt_text(isin)
                &&& c.spec_full_name() == opt_text(full_name)
                &&& c.spec_extra_id() == opt_text(extra_id)
            },
            r matches Err(e) ==> e is MissingStockInfo,
    {
        let sname = match name {
            Some(s) => s,
            None => {
                return Err(DbError::MissingStockInfo("name".to_owned()));
            },
        };
        let ticker = match ticker {
            Some(t) => t,
            None => {
                return Err(DbError::MissingStockInfo("ticker".to_owned()));
            },
        };
        let isin = match isin {
            Some(i) => i,
            None => {
                return Err(DbError::MissingStockInfo("isin".to_owned()));
            },
        };
        Ok(IbexCompany { full_name, short_name: sname, ticker, isin, nif: extra_id })
    }

    /// Get the most common name of the stock.
    pub fn name(&self) -> (r: &str)
        ensures
            r@ == self.spec_name(),
    {
        self.short_name.as_str()
    }

    /// Get the legal or full name of the stock, when one was given.
    pub fn full_name(&self) -> (r: Option<&String>)
        ensures
            r matches Some(f) ==> Some(f@) == self.spec_full_name(),
            r is Some <==> self.spec_full_name() is Some,
    {
        self.full_name.as_ref()
    }

    /// Get the ISIN of the stock.
    pub fn isin(&self) -> (r: &str)
        ensures
            r@ == self.spec_isin(),
    {
        self.isin.as_str()
    }

    /// Get the ticker of the stock.
    pub fn ticker(&self) -> (r: &str)
        ensures
            r@ == self.spec_ticker(),
    {
        self.ticker.as_str()
    }

    /// Borrow the ticker as an owned-string reference, as the market's
    /// ticker listing hands them out.
    pub fn ticker_field(&self) -> (r: &String)
        ensures
            r@ == self.spec_ticker(),
    {
        &self.ticker
    }

    /// Get the NIF of the stock, when one was given: companies registered
    /// outside Spain carry none.
    pub fn extra_id(&self) -> (r: Option<&String>)
        ensures
            r matches Some(n) ==> Some(n@) == self.spec_extra_id(),
            r is Some <==> self.spec_extra_id() is Some,
    {
        self.nif.as_ref()
    }
}

impl Clone for IbexCompany {
    /// A clone repeats every field.
    fn clone(&self) -> (r: Self)
        ensures
            r.spec_name() == self.spec_name(),
            r.spec_ticker() == self.spec_ticker(),
            r.spec_isin() == self.spec_isin(),
            r.spec_full_name() == self.spec_full_name(),
            r.spec_extra_id() == self.spec_extra_id(),
    {
        IbexCompany {
            full_name: match &self.full_name {
                Some(f) => Some(f.clone()),
                None => None,
            },
            short_name: self.short_name.clone(),
            ticker: self.ticker.clone(),
            isin: self.isin.clone(),
            nif: match &self.nif {
                Some(n) => Some(n.clone()),
                None => None,
            },
        }
    }
}

} // verus!
