//! The names by which a test checks the outcome of a child process. A checked child failure
//! reaches the test, so such a call is evidence that the test verifies something.
use vstd::prelude::*;

use crate::mock_api::{among, last_segment, listed};
use crate::sut_calls::{at_or_under, is_at_or_under};
use crate::text::{chars_of, cut, rfind, rfind_char, same};

verus! {

/// Canonical call heads that raise on a non-zero exit status, whatever their arguments.
pub const CHECKED_SUBPROCESS_CALLS: [&'static str; 2] = [
    "subprocess.check_call",
    "subprocess.check_output",
];

/// Canonical call heads that raise on a non-zero exit status when told to by a keyword.
pub const CHECKABLE_SUBPROCESS_CALLS: [&'static str; 1] = ["subprocess.run"];

/// The keyword that tells a checkable call to raise.
pub const CHECK_KEYWORD: &'static str = "check";

/// The one value of that keyword which counts: the truth of any other is not known statically.
pub const TRUE_LITERAL: &'static str = "True";

/// Canonical call head of the context manager that discards an exception outright.
pub const SUPPRESS_CONTEXT_MANAGER: &'static str = "contextlib.suppress";

/// The method of a completed process that raises on a non-zero exit status.
pub const RETURNCODE_CHECK_METHOD: &'static str = "check_returncode";

/// The module that every recognised helper lives in.
pub const SUBPROCESS_MODULE: &'static str = "subprocess";

/// A chain with a receiver whose last segment is the return-code check.
pub open spec fn returncode_check(chain: Seq<char>) -> bool {
    rfind(chain, '.', chain.len() as int) > 0 && last_segment(chain) == RETURNCODE_CHECK_METHOD@
}

/// Whether `canonical` names the context manager that discards exceptions.
pub fn is_suppress_context_manager(canonical: &str) -> (r: bool)
    ensures
        r == (canonical@ == SUPPRESS_CONTEXT_MANAGER@),
{
    same(canonical, SUPPRESS_CONTEXT_MANAGER)
}

/// Whether `name` is the `subprocess` module or a name under it.
pub fn is_subprocess_name(name: &str) -> (r: bool)
    ensures
        r == at_or_under(name@, SUBPROCESS_MODULE@),
{
    is_at_or_under(name, SUBPROCESS_MODULE)
}

/// Whether `canonical` names a helper that always raises on a non-zero exit status.
pub fn is_checked_subprocess_call(canonical: &str) -> (r: bool)
    ensures
        r == among(CHECKED_SUBPROCESS_CALLS@, canonical@),
{
    listed(CHECKED_SUBPROCESS_CALLS.as_slice(), canonical)
}

/// Whether `canonical` names a helper that raises on a non-zero exit status when told to.
pub fn is_checkable_subprocess_call(canonical: &str) -> (r: bool)
    ensures
        r == among(CHECKABLE_SUBPROCESS_CALLS@, canonical@),
{
    listed(CHECKABLE_SUBPROCESS_CALLS.as_slice(), canonical)
}

/// Whether `chain` is a return-code check on some receiver. A bare `check_returncode` has none.
pub fn is_returncode_check(chain: &str) -> (r: bool)
    ensures
        r == returncode_check(chain@),
{
    let chars = chars_of(chain);
    let n: usize = chars.len();
    match rfind_char(&chars, '.') {
        Some(i) => {
            let method = cut(&chars, i + 1, n);
            i > 0 && same(&method, RETURNCODE_CHECK_METHOD)
        },
        None => false,
    }
}

} // verus!
