//! The Neo N3 interop services that a script can reach with SYSCALL.

use vstd::prelude::*;
use vstd::string::StringSliceAdditionalSpecFns;

use crate::text::bytes_equal;

verus! {

/// One interop service: its descriptor and the 32-bit identifier SYSCALL carries.
///
/// The identifier is the first four bytes of the SHA-256 of the descriptor, read little-endian.
#[derive(Debug, Clone, Copy, PartialEq, Eq)]
pub struct SyscallInfo {
    pub name: &'static str,
    pub hash: u32,
}

/// Number of known interop services.
pub const SYSCALL_COUNT: usize = 41;

/// The identifier of `System.Contract.Call`.
pub const CONTRACT_CALL_HASH: u32 = 0x525b7d62;

/// The interop service at a position of the table.
pub open spec fn spec_syscall_entry(index: int) -> Option<SyscallInfo> {
    if index == 0 {
        Some(SyscallInfo { name: "System.Contract.Call", hash: 0x525b7d62 })
    } else if index == 1 {
        Some(SyscallInfo { name: "System.Contract.CallNative", hash: 0x677bf71a })
    } else if index == 2 {
        Some(SyscallInfo { name: "System.Contract.GetCallFlags", hash: 0x813ada95 })
    } else if index == 3 {
        Some(SyscallInfo { name: "System.Contract.CreateStandardAccount", hash: 0x028799cf })
    } else if index == 4 {
        Some(SyscallInfo { name: "System.Contract.CreateMultisigAccount", hash: 0x09e9336a })
    } else if index == 5 {
        Some(SyscallInfo { name: "System.Contract.NativeOnPersist", hash: 0x93bcdb2e })
    } else if index == 6 {
        Some(SyscallInfo { name: "System.Contract.NativePostPersist", hash: 0x165da144 })
    } else if index == 7 {
        Some(SyscallInfo { name: "System.Crypto.CheckSig", hash: 0x27b3e756 })
    } else if index == 8 {
        Some(SyscallInfo { name: "System.Crypto.CheckMultisig", hash: 0x3adcd09e })
    } else if index == 9 {
        Some(SyscallInfo { name: "System.Iterator.Next", hash: 0x9ced089c })
    } else if index == 10 {
        Some(SyscallInfo { name: "System.Iterator.Value", hash: 0x1dbf54f3 })
    } else if index == 11 {
        Some(SyscallInfo { name: "System.Runtime.Platform", hash: 0xf6fc79b2 })
    } else if index == 12 {
        Some(SyscallInfo { name: "System.Runtime.GetNetwork", hash: 0xe0a0fbc5 })
    } else if index == 13 {
        Some(SyscallInfo { name: "System.Runtime.GetAddressVersion", hash: 0xdc92494c })
    } else if index == 14 {
        Some(SyscallInfo { name: "System.Runtime.GetTrigger", hash: 0xa0387de9 })
    } else if index == 15 {
        Some(SyscallInfo { name: "System.Runtime.GetTime", hash: 0x0388c3b7 })
    } else if index == 16 {
        Some(SyscallInfo { name: "System.Runtime.GetScriptContainer", hash: 0x3008512d })
    } else if index == 17 {
        Some(SyscallInfo { name: "System.Runtime.GetExecutingScriptHash", hash: 0x74a8fedb })
    } else if index == 18 {
        Some(SyscallInfo { name: "System.Runtime.GetCallingScriptHash", hash: 0x3c6e5339 })
    } else if index == 19 {
        Some(SyscallInfo { name: "System.Runtime.GetEntryScriptHash", hash: 0x38e2b4f9 })
    } else if index == 20 {
        Some(SyscallInfo { name: "System.Runtime.LoadScript", hash: 0x8f800cb3 })
    } else if index == 21 {
        Some(SyscallInfo { name: "System.Runtime.CheckWitness", hash: 0x8cec27f8 })
    } else if index == 22 {
        Some(SyscallInfo { name: "System.Runtime.GetInvocationCounter", hash: 0x43112784 })
    } else if index == 23 {
        Some(SyscallInfo { name: "System.Runtime.GetRandom", hash: 0x28a9de6b })
    } else if index == 24 {
        Some(SyscallInfo { name: "System.Runtime.Log", hash: 0x9647e7cf })
    } else if index == 25 {
        Some(SyscallInfo { name: "System.Runtime.Notify", hash: 0x616f0195 })
    } else if index == 26 {
        Some(SyscallInfo { name: "System.Runtime.GetNotifications", hash: 0xf1354327 })
    } else if index == 27 {
        Some(SyscallInfo { name: "System.Runtime.GasLeft", hash: 0xced88814 })
    } else if index == 28 {
        Some(SyscallInfo { name: "System.Runtime.BurnGas", hash: 0xbc8c5ac3 })
    } else if index == 29 {
        Some(SyscallInfo { name: "System.Runtime.CurrentSigners", hash: 0x8b18f1ac })
    } else if index == 30 {
        Some(SyscallInfo { name: "System.Storage.GetContext", hash: 0xce67f69b })
    } else if index == 31 {
        Some(SyscallInfo { name: "System.Storage.GetReadOnlyContext", hash: 0xe26bb4f6 })
    } else if index == 32 {
        Some(SyscallInfo { name: "System.Storage.AsReadOnly", hash: 0xe9bf4c76 })
    } else if index == 33 {
        Some(SyscallInfo { name: "System.Storage.Get", hash: 0x31e85d92 })
    } else if index == 34 {
        Some(SyscallInfo { name: "System.Storage.Find", hash: 0x9ab830df })
    } else if index == 35 {
        Some(SyscallInfo { name: "System.Storage.Put", hash: 0x84183fe6 })
    } else if index == 36 {
        Some(SyscallInfo { name: "System.Storage.Delete", hash: 0xedc5582f })
    } else if index == 37 {
        Some(SyscallInfo { name: "System.Storage.Local.Get", hash: 0xe85e8dd5 })
    } else if index == 38 {
        Some(SyscallInfo { name: "System.Storage.Local.Find", hash: 0xf3527607 })
    } else if index == 39 {
        Some(SyscallInfo { name: "System.Storage.Local.Put", hash: 0x0ae30c39 })
    } else if index == 40 {
        Some(SyscallInfo { name: "System.Storage.Local.Delete", hash: 0x94f55475 })
    } else {
        None
    }
}

/// Returns the interop service at a position of the table.
pub fn syscall_entry(index: usize) -> (r: Option<SyscallInfo>)
    ensures
        r == spec_syscall_entry(index as int),
{
    match index {
        0 => Some(SyscallInfo { name: "System.Contract.Call", hash: 0x525b7d62 }),
        1 => Some(SyscallInfo { name: "System.Contract.CallNative", hash: 0x677bf71a }),
        2 => Some(SyscallInfo { name: "System.Contract.GetCallFlags", hash: 0x813ada95 }),
        3 => Some(SyscallInfo { name: "System.Contract.CreateStandardAccount", hash: 0x028799cf }),
        4 => Some(SyscallInfo { name: "System.Contract.CreateMultisigAccount", hash: 0x09e9336a }),
        5 => Some(SyscallInfo { name: "System.Contract.NativeOnPersist", hash: 0x93bcdb2e }),
        6 => Some(SyscallInfo { name: "System.Contract.NativePostPersist", hash: 0x165da144 }),
        7 => Some(SyscallInfo { name: "System.Crypto.CheckSig", hash: 0x27b3e756 }),
        8 => Some(SyscallInfo { name: "System.Crypto.CheckMultisig", hash: 0x3adcd09e }),
        9 => Some(SyscallInfo { name: "System.Iterator.Next", hash: 0x9ced089c }),
        10 => Some(SyscallInfo { name: "System.Iterator.Value", hash: 0x1dbf54f3 }),
        11 => Some(SyscallInfo { name: "System.Runtime.Platform", hash: 0xf6fc79b2 }),
        12 => Some(SyscallInfo { name: "System.Runtime.GetNetwork", hash: 0xe0a0fbc5 }),
        13 => Some(SyscallInfo { name: "System.Runtime.GetAddressVersion", hash: 0xdc92494c }),
        14 => Some(SyscallInfo { name: "System.Runtime.GetTrigger", hash: 0xa0387de9 }),
        15 => Some(SyscallInfo { name: "System.Runtime.GetTime", hash: 0x0388c3b7 }),
        16 => Some(SyscallInfo { name: "System.Runtime.GetScriptContainer", hash: 0x3008512d }),
        17 => Some(SyscallInfo { name: "System.Runtime.GetExecutingScriptHash", hash: 0x74a8fedb }),
        18 => Some(SyscallInfo { name: "System.Runtime.GetCallingScriptHash", hash: 0x3c6e5339 }),
        19 => Some(SyscallInfo { name: "System.Runtime.GetEntryScriptHash", hash: 0x38e2b4f9 }),
        20 => Some(SyscallInfo { name: "System.Runtime.LoadScript", hash: 0x8f800cb3 }),
        21 => Some(SyscallInfo { name: "System.Runtime.CheckWitness", hash: 0x8cec27f8 }),
        22 => Some(SyscallInfo { name: "System.Runtime.GetInvocationCounter", hash: 0x43112784 }),
        23 => Some(SyscallInfo { name: "System.Runtime.GetRandom", hash: 0x28a9de6b }),
        24 => Some(SyscallInfo { name: "System.Runtime.Log", hash: 0x9647e7cf }),
        25 => Some(SyscallInfo { name: "System.Runtime.Notify", hash: 0x616f0195 }),
        26 => Some(SyscallInfo { name: "System.Runtime.GetNotifications", hash: 0xf1354327 }),
        27 => Some(SyscallInfo { name: "System.Runtime.GasLeft", hash: 0xced88814 }),
        28 => Some(SyscallInfo { name: "System.Runtime.BurnGas", hash: 0xbc8c5ac3 }),
        29 => Some(SyscallInfo { name: "System.Runtime.CurrentSigners", hash: 0x8b18f1ac }),
        30 => Some(SyscallInfo { name: "System.Storage.GetContext", hash: 0xce67f69b }),
        31 => Some(SyscallInfo { name: "System.Storage.GetReadOnlyContext", hash: 0xe26bb4f6 }),
        32 => Some(SyscallInfo { name: "System.Storage.AsReadOnly", hash: 0xe9bf4c76 }),
        33 => Some(SyscallInfo { name: "System.Storage.Get", hash: 0x31e85d92 }),
        34 => Some(SyscallInfo { name: "System.Storage.Find", hash: 0x9ab830df }),
        35 => Some(SyscallInfo { name: "System.Storage.Put", hash: 0x84183fe6 }),
        36 => Some(SyscallInfo { name: "System.Storage.Delete", hash: 0xedc5582f }),
        37 => Some(SyscallInfo { name: "System.Storage.Local.Get", hash: 0xe85e8dd5 }),
        38 => Some(SyscallInfo { name: "System.Storage.Local.Find", hash: 0xf3527607 }),
        39 => Some(SyscallInfo { name: "System.Storage.Local.Put", hash: 0x0ae30c39 }),
        40 => Some(SyscallInfo { name: "System.Storage.Local.Delete", hash: 0x94f55475 }),
        _ => None,
    }
}

/// The first table entry, from position `i` on, whose identifier is `hash`.
pub open spec fn find_hash_from(i: int, hash: u32) -> Option<SyscallInfo>
    decreases SYSCALL_COUNT - i,
{
    if i < 0 || i >= SYSCALL_COUNT {
        None
    } else if spec_syscall_entry(i) matches Some(info) && info.hash == hash {
        spec_syscall_entry(i)
    } else {
        find_hash_from(i + 1, hash)
    }
}

/// The first table entry, from position `i` on, whose descriptor is exactly `name`.
pub open spec fn find_name_from(i: int, name: Seq<u8>) -> Option<SyscallInfo>
    decreases SYSCALL_COUNT - i,
{
    if i < 0 || i >= SYSCALL_COUNT {
        None
    } else if spec_syscall_entry(i) matches Some(info) && info.name.spec_bytes() == name {
        spec_syscall_entry(i)
    } else {
        find_name_from(i + 1, name)
    }
}

/// The interop service that a SYSCALL identifier designates, if the table knows it.
pub open spec fn spec_lookup_by_hash(hash: u32) -> Option<SyscallInfo> {
    find_hash_from(0, hash)
}

/// The interop service with exactly this descriptor, if the table knows it.
pub open spec fn spec_lookup(name: Seq<u8>) -> Option<SyscallInfo> {
    find_name_from(0, name)
}

/// Finds the interop service that a SYSCALL identifier designates.
pub fn lookup_by_hash(hash: u32) -> (r: Option<SyscallInfo>)
    ensures
        r == spec_lookup_by_hash(hash),
{
    let mut i: usize = 0;
    while i < SYSCALL_COUNT
        invariant
            i <= SYSCALL_COUNT,
            find_hash_from(i as int, hash) == spec_lookup_by_hash(hash),
        decreases SYSCALL_COUNT - i,
    {
        match syscall_entry(i) {
            Some(info) => {
                if info.hash == hash {
                    return Some(info);
                }
            },
            None => {},
        }
        i = i + 1;
    }
    None
}

/// Finds an interop service by its exact descriptor.
pub fn lookup(name: &str) -> (r: Option<SyscallInfo>)
    ensures
        r == spec_lookup(name.spec_bytes()),
{
    let wanted = name.as_bytes();
    let mut i: usize = 0;
    while i < SYSCALL_COUNT
        invariant
            i <= SYSCALL_COUNT,
            wanted@ == name.spec_bytes(),
            find_name_from(i as int, name.spec_bytes()) == spec_lookup(name.spec_bytes()),
        decreases SYSCALL_COUNT - i,
    {
        match syscall_entry(i) {
            Some(info) => {
                if bytes_equal(info.name.as_bytes(), wanted) {
                    return Some(info);
                }
            },
            None => {},
        }
        i = i + 1;
    }
    None
}

/// Every service that a lookup by identifier returns carries that identifier.
pub proof fn lemma_lookup_by_hash_matches(hash: u32)
    ensures
        spec_lookup_by_hash(hash) matches Some(info) ==> info.hash == hash,
{
    lemma_find_hash_from_matches(0, hash);
}

/// A service found by its descriptor is found again by its identifier: the identifiers in the
/// table are distinct, so the identifier that SYSCALL carries for a named service designates
/// that service.
pub proof fn lemma_lookup_by_hash_inverts_lookup(name: Seq<u8>)
    ensures
        spec_lookup(name) matches Some(info) ==> spec_lookup_by_hash(info.hash) == Some(info),
{
    if spec_lookup(name) is Some {
        let j = lemma_find_name_from_entry(0, name);
        lemma_entry_hash_unique(j);
    }
}

/// A service found from position `i` on is the table entry at some position `j >= i`.
proof fn lemma_find_name_from_entry(i: int, name: Seq<u8>) -> (j: int)
    requires
        find_name_from(i, name) is Some,
    ensures
        0 <= i <= j < SYSCALL_COUNT,
        spec_syscall_entry(j) == find_name_from(i, name),
    decreases SYSCALL_COUNT - i,
{
    if spec_syscall_entry(i) matches Some(info) && info.name.spec_bytes() == name {
        i
    } else {
        lemma_find_name_from_entry(i + 1, name)
    }
}

/// The identifier of each table entry designates that entry.
proof fn lemma_entry_hash_unique(j: int)
    requires
        0 <= j < SYSCALL_COUNT,
    ensures
        spec_syscall_entry(j) matches Some(info) && spec_lookup_by_hash(info.hash) == Some(info),
{
    reveal_with_fuel(find_hash_from, 42);
}

proof fn lemma_find_hash_from_matches(i: int, hash: u32)
    ensures
        find_hash_from(i, hash) matches Some(info) ==> info.hash == hash,
    decreases SYSCALL_COUNT - i,
{
    if 0 <= i < SYSCALL_COUNT {
        lemma_find_hash_from_matches(i + 1, hash);
    }
}

} // verus!
