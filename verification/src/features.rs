//! The contract features (storage, payable) that a translated module needs.

use vstd::prelude::*;
use vstd::string::StringSliceAdditionalSpecFns;

use crate::text::{ascii_lower, ascii_lower_seq, to_ascii_lower};

verus! {

/// Which manifest features the translated contract uses.
#[derive(Debug, Clone, Copy, PartialEq, Eq, Structural)]
pub struct FeatureTracker {
    pub storage: bool,
    pub payable: bool,
}

/// The lower-case ASCII bytes of `system.storage`.
pub open spec fn storage_prefix() -> Seq<u8> {
    seq![115u8, 121, 115, 116, 101, 109, 46, 115, 116, 111, 114, 97, 103, 101]
}

/// Whether an interop service descriptor names a storage service: it starts with
/// `System.Storage`, in any case.
pub open spec fn is_storage_descriptor(d: Seq<u8>) -> bool {
    d.len() >= 14 && ascii_lower_seq(d.subrange(0, 14)) == storage_prefix()
}

/// `s` without its `_` bytes.
pub open spec fn without_underscores(s: Seq<u8>) -> Seq<u8>
    decreases s.len(),
{
    if s.len() == 0 {
        s
    } else if s.last() == 95u8 {
        without_underscores(s.drop_last())
    } else {
        without_underscores(s.drop_last()).push(s.last())
    }
}

/// The export names, lower-cased and without `_`, that make a contract payable.
pub open spec fn is_payment_hook(name: Seq<u8>) -> bool {
    name == seq![111u8, 110, 112, 97, 121, 109, 101, 110, 116]
        || name == seq![111u8, 110, 110, 101, 112, 49, 55, 112, 97, 121, 109, 101, 110, 116]
        || name == seq![111u8, 110, 110, 101, 112, 49, 49, 112, 97, 121, 109, 101, 110, 116]
}

/// Whether `a` holds exactly the bytes `b[0..n]` of a fixed pattern.
fn matches_pattern(a: &Vec<u8>, b: &[u8; 14], n: usize) -> (r: bool)
    requires
        n <= 14,
    ensures
        r == (a@ == b@.subrange(0, n as int)),
{
    if a.len() != n {
        return false;
    }
    let mut i: usize = 0;
    while i < n
        invariant
            i <= n <= 14,
            a@.len() == n,
            b@.len() == 14,
            forall|j: int| 0 <= j < i ==> a@[j] == b@[j],
        decreases n - i,
    {
        if a[i] != b[i] {
            return false;
        }
        i = i + 1;
    }
    assert(a@ =~= b@.subrange(0, n as int));
    true
}

impl FeatureTracker {
    /// A tracker with no feature enabled.
    pub fn new() -> (r: FeatureTracker)
        ensures
            !r.storage && !r.payable,
    {
        FeatureTracker { storage: false, payable: false }
    }

    /// Records a use of the interop service `descriptor`: the storage services enable storage.
    pub fn register_syscall(&mut self, descriptor: &str)
        ensures
            final(self).payable == old(self).payable,
            final(self).storage == (old(self).storage || is_storage_descriptor(
                descriptor.spec_bytes(),
            )),
    {
        let bytes = descriptor.as_bytes();
        if bytes.len() < 14 {
            return ;
        }
        let prefix: [u8; 14] = [115, 121, 115, 116, 101, 109, 46, 115, 116, 111, 114, 97, 103, 101];
        let mut i: usize = 0;
        while i < 14
            invariant
                i <= 14,
                bytes@ == descriptor.spec_bytes(),
                bytes@.len() >= 14,
                prefix@ == storage_prefix(),
                forall|j: int| 0 <= j < i ==> ascii_lower(bytes@[j]) == prefix@[j],
            decreases 14 - i,
        {
            if to_ascii_lower(bytes[i]) != prefix[i] {
                proof {
                    assert(ascii_lower_seq(bytes@.subrange(0, 14))[i as int] != storage_prefix()[i as int]);
                }
                return ;
            }
            i = i + 1;
        }
        assert(ascii_lower_seq(bytes@.subrange(0, 14)) =~= storage_prefix());
        self.storage = true;
    }

    /// Records an export: the payment hooks make the contract payable.
    pub fn register_export(&mut self, export: &str)
        ensures
            final(self).storage == old(self).storage,
            final(self).payable == (old(self).payable || is_payment_hook(
                without_underscores(ascii_lower_seq(export.spec_bytes())),
            )),
    {
        let bytes = export.as_bytes();
        let mut lowered: Vec<u8> = Vec::new();
        let mut i: usize = 0;
        while i < bytes.len()
            invariant
                i <= bytes@.len(),
                bytes@ == export.spec_bytes(),
                lowered@ == without_underscores(ascii_lower_seq(bytes@.subrange(0, i as int))),
            decreases bytes@.len() - i,
        {
            let c = to_ascii_lower(bytes[i]);
            proof {
                let pre = ascii_lower_seq(bytes@.subrange(0, i as int));
                let next = ascii_lower_seq(bytes@.subrange(0, i + 1));
                assert(next.drop_last() =~= pre);
                assert(next.last() == c);
            }
            if c != 95u8 {
                lowered.push(c);
            }
            i = i + 1;
        }
        assert(bytes@.subrange(0, bytes@.len() as int) =~= bytes@);
        let on_payment: [u8; 14] = [111, 110, 112, 97, 121, 109, 101, 110, 116, 0, 0, 0, 0, 0];
        let on_nep17: [u8; 14] = [111, 110, 110, 101, 112, 49, 55, 112, 97, 121, 109, 101, 110, 116];
        let on_nep11: [u8; 14] = [111, 110, 110, 101, 112, 49, 49, 112, 97, 121, 109, 101, 110, 116];
        proof {
            assert(on_payment@.subrange(0, 9) =~= seq![111u8, 110, 112, 97, 121, 109, 101, 110, 116]);
            assert(on_nep17@.subrange(0, 14) =~= seq![111u8, 110, 110, 101, 112, 49, 55, 112, 97, 121, 109, 101, 110, 116]);
            assert(on_nep11@.subrange(0, 14) =~= seq![111u8, 110, 110, 101, 112, 49, 49, 112, 97, 121, 109, 101, 110, 116]);
        }
        if matches_pattern(&lowered, &on_payment, 9) || matches_pattern(&lowered, &on_nep17, 14)
            || matches_pattern(&lowered, &on_nep11, 14) {
            self.payable = true;
        }
    }

    /// The manifest features to enable, in the order storage, payable.
    pub fn apply(&self) -> (r: Vec<&'static str>)
        ensures
            r@.len() == (if self.storage { 1int } else { 0 }) + (if self.payable { 1int } else { 0 }),
            self.storage ==> r@[0]@ == "storage"@,
            self.payable ==> r@[r@.len() - 1]@ == "payable"@,
    {
        let mut out: Vec<&'static str> = Vec::new();
        if self.storage {
            out.push("storage");
        }
        if self.payable {
            out.push("payable");
        }
        out
    }
}

} // verus!
