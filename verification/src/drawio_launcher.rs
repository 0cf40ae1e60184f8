//! The URL under which the diagramming tool opens a compressed,
//! base64-encoded, percent-encoded diagram model: the fixed base address
//! with the payload after the literal `#R` marker. Opening the browser
//! itself is I/O and stays with the caller.

use vstd::prelude::*;

verus! {

/// The import URL for an encoded diagram payload: the fixed base address,
/// then `#R`, then the payload, unchanged.
pub fn drawio_url(compressed_xml: &str) -> (r: String)
    ensures
        r@ == "https://app.diagrams.net/?splash=0&libs=general;uml#R"@ + compressed_xml@,
{
    let mut url = String::new();
    url.append("https://app.diagrams.net/?splash=0&libs=general;uml#R");
    url.append(compressed_xml);
    url
}

} // verus!
