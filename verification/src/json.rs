//! JSON values as manifest overlays hold them, and the methods such an overlay marks safe.

use vstd::prelude::*;

use vstd::string::StringExecFns;

verus! {

/// A JSON value. Numbers are kept as the text that writes them.
#[derive(Debug)]
pub enum JsonValue {
    Null,
    Bool(bool),
    Number(String),
    String(String),
    Array(Vec<JsonValue>),
    /// The members of an object, in order; keys are distinct.
    Object(Vec<(String, JsonValue)>),
}

/// The value of member `key` of an object: the first member with that key.
pub open spec fn member(entries: Seq<(String, JsonValue)>, key: Seq<char>) -> Option<JsonValue>
    decreases entries.len(),
{
    if entries.len() == 0 {
        None
    } else if entries[0].0@ == key {
        Some(entries[0].1)
    } else {
        member(entries.drop_first(), key)
    }
}

/// The name of a method description that is marked safe: an object whose member `safe` is
/// `true` and whose member `name` is a string.
pub open spec fn safe_method_name(method: JsonValue) -> Option<Seq<char>> {
    match method {
        JsonValue::Object(e) => {
            if member(e@, "safe"@) == Some(JsonValue::Bool(true)) {
                match member(e@, "name"@) {
                    Some(JsonValue::String(s)) => Some(s@),
                    _ => None,
                }
            } else {
                None
            }
        },
        _ => None,
    }
}

/// Whether an object's `abi.methods` array describes a safe method named `name`.
pub open spec fn abi_marks_safe(entries: Seq<(String, JsonValue)>, name: Seq<char>) -> bool {
    match member(entries, "abi"@) {
        Some(JsonValue::Object(abi)) => match member(abi@, "methods"@) {
            Some(JsonValue::Array(methods)) => exists|i: int|
                0 <= i < methods@.len() && #[trigger] safe_method_name(methods@[i]) == Some(name),
            _ => false,
        },
        _ => false,
    }
}

/// Whether `name` is marked safe anywhere in `v`: by the `abi.methods` of `v` or of any object
/// nested in it.
pub open spec fn marks_safe(v: JsonValue, name: Seq<char>) -> bool
    decreases v,
{
    match v {
        JsonValue::Object(entries) => abi_marks_safe(entries@, name) || members_mark_safe(
            entries@,
            name,
        ),
        JsonValue::Array(items) => items_mark_safe(items@, name),
        _ => false,
    }
}

/// Whether some member value of an object marks `name` safe.
pub open spec fn members_mark_safe(entries: Seq<(String, JsonValue)>, name: Seq<char>) -> bool
    decreases entries,
{
    if entries.len() == 0 {
        false
    } else {
        proof {
            assert(decreases_to!(entries => entries.subrange(0, entries.len() - 1)));
            assert(decreases_to!(entries => entries[entries.len() - 1]));
        }
        members_mark_safe(entries.subrange(0, entries.len() - 1), name) || marks_safe(
            entries[entries.len() - 1].1,
            name,
        )
    }
}

/// Whether some item of an array marks `name` safe.
pub open spec fn items_mark_safe(items: Seq<JsonValue>, name: Seq<char>) -> bool
    decreases items,
{
    if items.len() == 0 {
        false
    } else {
        proof {
            assert(decreases_to!(items => items.subrange(0, items.len() - 1)));
        }
        items_mark_safe(items.subrange(0, items.len() - 1), name) || marks_safe(
            items[items.len() - 1],
            name,
        )
    }
}

/// Whether some string of `s` is `n`.
pub open spec fn holds_name(s: Seq<String>, n: Seq<char>) -> bool {
    exists|k: int| 0 <= k < s.len() && (#[trigger] s[k])@ == n
}

/// Whether the strings of `s` are pairwise different.
pub open spec fn distinct_names(s: Seq<String>) -> bool {
    forall|i: int, j: int| 0 <= i < j < s.len() ==> (#[trigger] s[i])@ != (#[trigger] s[j])@
}

/// The value of member `key`, as [`member`] defines it.
pub fn get_member<'a>(entries: &'a Vec<(String, JsonValue)>, key: &String) -> (r: Option<
    &'a JsonValue,
>)
    ensures
        r matches Some(v) ==> member(entries@, key@) == Some(*v),
        r is None ==> member(entries@, key@) is None,
{
    let mut i: usize = 0;
    assert(entries@.skip(0) =~= entries@);
    while i < entries.len()
        invariant
            i <= entries@.len(),
            member(entries@, key@) == member(entries@.skip(i as int), key@),
        decreases entries@.len() - i,
    {
        proof {
            assert(entries@.skip(i as int).drop_first() =~= entries@.skip(i + 1));
            assert(entries@.skip(i as int)[0] == entries@[i as int]);
        }
        if entries[i].0 == *key {
            return Some(&entries[i].1);
        }
        i = i + 1;
    }
    assert(entries@.skip(i as int).len() == 0);
    None
}

/// Adds `name` to `acc` unless a string of `acc` equals it.
fn insert_name(acc: &mut Vec<String>, name: String)
    ensures
        forall|n: Seq<char>| #[trigger] holds_name(final(acc)@, n) <==> holds_name(old(acc)@, n) || n == name@,
        distinct_names(old(acc)@) ==> distinct_names(final(acc)@),
{
    let mut k: usize = 0;
    while k < acc.len()
        invariant
            k <= acc@.len(),
            forall|j: int| 0 <= j < k ==> (#[trigger] acc@[j])@ != name@,
        decreases acc@.len() - k,
    {
        if acc[k] == name {
            proof {
                assert forall|n: Seq<char>| holds_name(acc@, n) <==> holds_name(acc@, n) || n == name@ by {
                    if n == name@ {
                        assert(acc@[k as int]@ == n);
                    }
                }
            }
            return;
        }
        k = k + 1;
    }
    let ghost before = acc@;
    acc.push(name);
    proof {
        assert forall|n: Seq<char>| holds_name(acc@, n) <==> holds_name(before, n) || n == name@ by {
            if holds_name(before, n) {
                let q = choose|q: int| 0 <= q < before.len() && (#[trigger] before[q])@ == n;
                assert(acc@[q] == before[q]);
            }
            if n == name@ {
                assert(acc@[before.len() as int]@ == n);
            }
            if holds_name(acc@, n) {
                let q = choose|q: int| 0 <= q < acc@.len() && (#[trigger] acc@[q])@ == n;
                if q < before.len() {
                    assert(before[q] == acc@[q]);
                }
            }
        }
    }
}

/// The name of a method description marked safe, as [`safe_method_name`] defines it.
fn safe_name_of(method: &JsonValue) -> (r: Option<String>)
    ensures
        r matches Some(s) ==> safe_method_name(*method) == Some(s@),
        r is None ==> safe_method_name(*method) is None,
{
    match method {
        JsonValue::Object(e) => {
            let safe = get_member(e, &String::from_str("safe"));
            proof {
                reveal_strlit("safe");
                reveal_strlit("name");
            }
            let is_safe = match safe {
                Some(JsonValue::Bool(b)) => *b,
                _ => false,
            };
            if !is_safe {
                return None;
            }
            match get_member(e, &String::from_str("name")) {
                Some(JsonValue::String(s)) => Some(s.clone()),
                _ => None,
            }
        },
        _ => None,
    }
}

/// Adds the names that an object's `abi.methods` marks safe.
fn collect_abi_safe(entries: &Vec<(String, JsonValue)>, acc: &mut Vec<String>)
    ensures
        forall|n: Seq<char>|
            #[trigger] holds_name(final(acc)@, n) <==> holds_name(old(acc)@, n) || abi_marks_safe(entries@, n),
        distinct_names(old(acc)@) ==> distinct_names(final(acc)@),
{
    proof {
        reveal_strlit("abi");
        reveal_strlit("methods");
    }
    let abi = match get_member(entries, &String::from_str("abi")) {
        Some(JsonValue::Object(abi)) => abi,
        _ => {
            return;
        },
    };
    let methods = match get_member(abi, &String::from_str("methods")) {
        Some(JsonValue::Array(methods)) => methods,
        _ => {
            return;
        },
    };
    let mut i: usize = 0;
    while i < methods.len()
        invariant
            i <= methods@.len(),
            member(entries@, "abi"@) == Some(JsonValue::Object(*abi)),
            member(abi@, "methods"@) == Some(JsonValue::Array(*methods)),
            forall|n: Seq<char>|
                #[trigger] holds_name(acc@, n) <==> holds_name(old(acc)@, n) || exists|j: int|
                    0 <= j < i && #[trigger] safe_method_name(methods@[j]) == Some(n),
            distinct_names(old(acc)@) ==> distinct_names(acc@),
        decreases methods@.len() - i,
    {
        let ghost before = acc@;
        match safe_name_of(&methods[i]) {
            Some(name) => {
                insert_name(acc, name);
            },
            None => {},
        }
        proof {
            assert forall|n: Seq<char>|
                #[trigger] holds_name(acc@, n) <==> holds_name(old(acc)@, n) || exists|j: int|
                    0 <= j < i + 1 && #[trigger] safe_method_name(methods@[j]) == Some(n) by {
                if exists|j: int| 0 <= j < i + 1 && #[trigger] safe_method_name(methods@[j]) == Some(n) {
                    let j = choose|j: int| 0 <= j < i + 1 && #[trigger] safe_method_name(methods@[j]) == Some(n);
                    if j < i {
                    }
                }
            }
        }
        i = i + 1;
    }
}

/// Adds to `acc` every method name that `value` marks safe, as [`marks_safe`] says: those that
/// the `abi.methods` of `value`, or of any object nested in it, mark `safe`. A name already in
/// `acc` is not added again.
pub fn collect_safe_methods(value: &JsonValue, acc: &mut Vec<String>)
    ensures
        forall|n: Seq<char>|
            #[trigger] holds_name(final(acc)@, n) <==> holds_name(old(acc)@, n) || marks_safe(*value, n),
        distinct_names(old(acc)@) ==> distinct_names(final(acc)@),
    decreases value,
{
    match value {
        JsonValue::Object(entries) => {
            collect_abi_safe(entries, acc);
            let mut i: usize = 0;
            while i < entries.len()
                invariant
                    i <= entries@.len(),
                    *value == JsonValue::Object(*entries),
                    forall|n: Seq<char>|
                        #[trigger] holds_name(acc@, n) <==> holds_name(old(acc)@, n) || abi_marks_safe(entries@, n)
                            || members_mark_safe(entries@.subrange(0, i as int), n),
                    distinct_names(old(acc)@) ==> distinct_names(acc@),
                decreases entries@.len() - i,
            {
                proof {
                    assert(decreases_to!(*value => value->Object_0));
                    assert(decreases_to!(value->Object_0 => value->Object_0@));
                    assert(decreases_to!(value->Object_0@ => value->Object_0@[i as int]));
                    assert(decreases_to!(value->Object_0@[i as int] => value->Object_0@[i as int].1));
                }
                collect_safe_methods(&entries[i].1, acc);
                proof {
                    let next = entries@.subrange(0, i + 1);
                    assert(next.subrange(0, next.len() - 1) =~= entries@.subrange(0, i as int));
                    assert(next[next.len() - 1] == entries@[i as int]);
                    assert forall|n: Seq<char>|
                        #[trigger] holds_name(acc@, n) <==> holds_name(old(acc)@, n) || abi_marks_safe(entries@, n)
                            || members_mark_safe(next, n) by {
                        assert(members_mark_safe(next, n) == (members_mark_safe(
                            entries@.subrange(0, i as int),
                            n,
                        ) || marks_safe(entries@[i as int].1, n)));
                    }
                }
                i = i + 1;
            }
            proof {
                assert(entries@.subrange(0, entries@.len() as int) =~= entries@);
            }
        },
        JsonValue::Array(items) => {
            let mut i: usize = 0;
            while i < items.len()
                invariant
                    i <= items@.len(),
                    *value == JsonValue::Array(*items),
                    forall|n: Seq<char>|
                        #[trigger] holds_name(acc@, n) <==> holds_name(old(acc)@, n) || items_mark_safe(
                            items@.subrange(0, i as int),
                            n,
                        ),
                    distinct_names(old(acc)@) ==> distinct_names(acc@),
                decreases items@.len() - i,
            {
                proof {
                    assert(decreases_to!(*value => value->Array_0));
                    assert(decreases_to!(value->Array_0 => value->Array_0@));
                    assert(decreases_to!(value->Array_0@ => value->Array_0@[i as int]));
                }
                collect_safe_methods(&items[i], acc);
                proof {
                    let next = items@.subrange(0, i + 1);
                    assert(next.subrange(0, next.len() - 1) =~= items@.subrange(0, i as int));
                    assert(next[next.len() - 1] == items@[i as int]);
                    assert forall|n: Seq<char>|
                        #[trigger] holds_name(acc@, n) <==> holds_name(old(acc)@, n) || items_mark_safe(next, n) by {
                        assert(items_mark_safe(next, n) == (items_mark_safe(
                            items@.subrange(0, i as int),
                            n,
                        ) || marks_safe(items@[i as int], n)));
                    }
                }
                i = i + 1;
            }
            proof {
                assert(items@.subrange(0, items@.len() as int) =~= items@);
            }
        },
        _ => {},
    }
}

} // verus!
