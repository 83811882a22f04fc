//! The decision at the heart of device discovery: whether the vendor and
//! product identifiers read from a device tree name the bridge device.

use vstd::prelude::*;
use vstd::string::StringExecFns;

verus! {

/// Decides whether vendor and product identifier file contents name the
/// bridge device: the fixed vendor/product pair, each with its trailing
/// newline.
pub fn device_matches(vendor: &String, product: &String) -> (r: bool)
    ensures
        r == (vendor@ == "2341\n"@ && product@ == "8054\n"@),
{
    let expected_vendor = String::from_str("2341\n");
    let expected_product = String::from_str("8054\n");
    let r = vendor.eq(&expected_vendor) && product.eq(&expected_product);
    r
}

} // verus!
