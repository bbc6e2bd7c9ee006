//! Logging each request.

use vstd::prelude::*;

verus! {

/// Writes a line for each request, the text of `ServerContext::display_text`,
/// then passes it on.
pub struct LoggingMiddleware;

} // verus!
