//! The CNMV short-position lookup: the response check for the page the
//! Spanish market regulator serves, and the provider that knows the
//! endpoint addresses.
//!
//! Fetching the page is network work and stays with the caller; this module
//! holds what can be checked of it: a response that reports "no data found"
//! without the historical-series section belongs to a company the regulator
//! does not know.

use vstd::prelude::*;

use crate::text::{contains_seq, str_contains};

verus! {

/// Error types for the CNMV handler.
#[derive(Debug)]
pub enum CNMVError {
    /// The queried company is not recognized by the regulator's page.
    UnknownCompany,
    /// A failure of the external API.
    ExternalError(String),
    /// A failure of the handler's own machinery.
    InternalError(String),
}

/// A response of the short-position page that passed the content check.
#[derive(Debug)]
pub struct ShortResponse(String);

impl ShortResponse {
    /// The accepted page text.
    pub closed spec fn spec_text(&self) -> Seq<char> {
        self.0@
    }

    /// Check whether a GET of the short-position page returned valid
    /// content: a page that reports no available data is still valid when
    /// it shows the historical-series section, and is an unknown company
    /// otherwise.
    pub fn parse(s: String) -> (r: Result<ShortResponse, CNMVError>)
        ensures
            r is Ok <==> (contains_seq(s@, "No se han encontrado datos disponibles"@) ==> contains_seq(
                s@,
                "Serie histórica"@,
            )),
            r matches Ok(resp) ==> resp.spec_text() == s@,
            r matches Err(e) ==> e is UnknownCompany,
    {
        if str_contains(s.as_str(), "No se han encontrado datos disponibles") {
            if str_contains(s.as_str(), "Serie histórica") {
                Ok(ShortResponse(s))
            } else {
                Err(CNMVError::UnknownCompany)
            }
        } else {
            Ok(ShortResponse(s))
        }
    }

    /// The accepted page text, for the scraping layer to pick apart.
    pub fn as_text(&self) -> (r: &str)
        ensures
            r@ == self.spec_text(),
    {
        self.0.as_str()
    }
}

/// Handler that knows where the CNMV publishes short positions.
#[derive(Debug)]
pub struct CNMVProvider {
    base_url: String,
    short_ext: String,
}

impl CNMVProvider {
    /// The main path of the URL.
    pub closed spec fn spec_base_url(&self) -> Seq<char> {
        self.base_url@
    }

    /// The path extension of the short-positions endpoint.
    pub closed spec fn spec_short_ext(&self) -> Seq<char> {
        self.short_ext@
    }

    /// Build a provider pointing at the regulator's public endpoints.
    pub fn new() -> (r: CNMVProvider)
        ensures
            r.spec_base_url() == "https://www.cnmv.es"@,
            r.spec_short_ext() == "Portal/Consultas/EE/PosicionesCortas.aspx?nif="@,
    {
        CNMVProvider {
            base_url: "https://www.cnmv.es".to_owned(),
            short_ext: "Portal/Consultas/EE/PosicionesCortas.aspx?nif=".to_owned(),
        }
    }

    /// The main path of the URL.
    pub fn base_url(&self) -> (r: &str)
        ensures
            r@ == self.spec_base_url(),
    {
        self.base_url.as_str()
    }

    /// The path extension of the short-positions endpoint.
    pub fn short_extension(&self) -> (r: &str)
        ensures
            r@ == self.spec_short_ext(),
    {
        self.short_ext.as_str()
    }
}

impl Default for CNMVProvider {
    /// The default provider points at the regulator's public endpoints.
    fn default() -> (r: Self)
        ensures
            r.spec_base_url() == "https://www.cnmv.es"@,
            r.spec_short_ext() == "Portal/Consultas/EE/PosicionesCortas.aspx?nif="@,
    {
        CNMVProvider::new()
    }
}

} // verus!
