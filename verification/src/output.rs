//! What is written for an encoded route, and where.

use crate::text::is_text_equal;
use vstd::prelude::*;
use vstd::string::*;

verus! {

/// The calldata of an encoded route: `0x`, then the hexadecimal text.
pub open spec fn calldata_text(encoded: Seq<char>) -> Seq<char> {
    "0x"@ + encoded
}

/// True for the chain whose encodings belong with the test fixtures.
pub open spec fn is_local_chain(chain: Seq<char>) -> bool {
    chain == "localhost"@
}

/// The path of the file for a route on `chain`: the file name under the test
/// directory for the local chain, under the directory of encodings for any
/// other.
pub open spec fn output_path_text(
    chain: Seq<char>,
    file_name: Seq<char>,
    encodings_dir: Seq<char>,
    test_encodings_dir: Seq<char>,
) -> Seq<char> {
    if is_local_chain(chain) {
        test_encodings_dir + "/"@ + file_name
    } else {
        encodings_dir + "/"@ + file_name
    }
}

/// Puts `0x` in front of the hexadecimal text of an encoded route.
pub fn calldata(encoded: &str) -> (r: String)
    ensures
        r@ == calldata_text(encoded@),
{
    let mut r = "0x".to_owned();
    r.append(encoded);
    r
}

/// Chooses the path of the file for a route on `chain`.
pub fn output_path(chain: &str, file_name: &str, encodings_dir: &str, test_encodings_dir: &str) -> (r:
    String)
    ensures
        r@ == output_path_text(chain@, file_name@, encodings_dir@, test_encodings_dir@),
{
    let mut r = if is_text_equal(chain, "localhost") {
        test_encodings_dir.to_owned()
    } else {
        encodings_dir.to_owned()
    };
    r.append("/");
    r.append(file_name);
    r
}

} // verus!
