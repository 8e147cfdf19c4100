//! Passive reconnaissance library: DNS record-set reporting, HTTP response
//! header inspection, and subdomain discovery through a public certificate
//! transparency log.

pub mod extract;
pub mod report;
pub mod text;
