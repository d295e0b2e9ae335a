//! The key-formatting core of the key-value storage adapter backed by
//! browser local storage. The adapter namespaces every record key with a
//! prefix derived from the caller-supplied path; deriving the prefix and
//! formatting keys is plain string logic and is verified here, while the
//! local-storage probe and the get/set/delete calls themselves are I/O that
//! lives with the unverified surroundings.

use vstd::prelude::*;
use vstd::string::StringExecFns;

verus! {

/// The path components joined with `-` between them: a path such as
/// `./wallets/user/subfolder` becomes the prefix `wallets-user-subfolder`.
pub open spec fn joined_prefix(parts: Seq<Seq<char>>) -> Seq<char>
    decreases parts.len(),
{
    if parts.len() == 0 {
        Seq::empty()
    } else if parts.len() == 1 {
        parts[0]
    } else {
        parts[0] + seq!['-'] + joined_prefix(parts.drop_first())
    }
}

/// Storage adapter using the browser local storage, reduced to what can be
/// stated and proved: the key namespacing. Every record key is prefixed with
/// the joined path components and a `-`.
#[derive(Debug)]
pub struct WasmAdapter {
    key_prefix: String,
}

impl View for WasmAdapter {
    type V = Seq<char>;

    closed spec fn view(&self) -> Seq<char> {
        self.key_prefix@
    }
}

/// Appending one more component extends the joined prefix by a `-` and the
/// component, except on the empty prefix.
proof fn lemma_joined_prefix_push(parts: Seq<Seq<char>>, p: Seq<char>)
    ensures
        joined_prefix(parts.push(p)) == if parts.len() == 0 {
            p
        } else {
            joined_prefix(parts) + seq!['-'] + p
        },
    decreases parts.len(),
{
    if parts.len() == 0 {
        assert(parts.push(p) =~= seq![p]);
        assert(joined_prefix(seq![p]) == p);
    } else {
        lemma_joined_prefix_push(parts.drop_first(), p);
        assert(parts.push(p).drop_first() =~= parts.drop_first().push(p));
        if parts.len() == 1 {
            assert(joined_prefix(parts.push(p)) == parts[0] + seq!['-'] + joined_prefix(
                parts.drop_first().push(p),
            ));
            assert(joined_prefix(parts.drop_first().push(p)) == p);
        }
    }
}

impl WasmAdapter {
    /// Build an adapter whose key prefix joins the given path components with
    /// `-`. The caller extracts the normal components from its path and hands
    /// them over as plain strings.
    pub fn from_components(components: &Vec<String>) -> (r: WasmAdapter)
        ensures
            r@ == joined_prefix(components.deep_view()),
    {
        let ghost parts = components.deep_view();
        let mut key_prefix = String::new();
        let mut i: usize = 0;
        proof {
            assert(parts.take(0) =~= Seq::empty());
        }
        while i < components.len()
            invariant
                i <= components.len(),
                parts == components.deep_view(),
                parts.len() == components.len(),
                forall|k: int| 0 <= k < parts.len() ==> parts[k] == #[trigger] components[k]@,
                key_prefix@ == joined_prefix(parts.take(i as int)),
            decreases components.len() - i,
        {
            if i > 0 {
                key_prefix.append("-");
            }
            key_prefix.append(components[i].as_str());
            proof {
                reveal_strlit("-");
                assert("-"@ =~= seq!['-']);
                lemma_joined_prefix_push(parts.take(i as int), parts[i as int]);
                assert(parts.take(i as int).push(parts[i as int]) =~= parts.take(i + 1));
                if i == 0 {
                    assert(key_prefix@ =~= parts[0]);
                }
            }
            i += 1;
        }
        proof {
            assert(parts.take(components.len() as int) =~= parts);
        }
        WasmAdapter { key_prefix }
    }

    /// The namespaced form of a record key: the prefix, a `-`, then the key.
    pub fn format_key(&self, key: &str) -> (r: String)
        ensures
            r@ == self@ + seq!['-'] + key@,
    {
        let mut r = self.key_prefix.clone();
        r.append("-");
        r.append(key);
        proof {
            reveal_strlit("-");
            assert(r@ =~= self@ + seq!['-'] + key@);
        }
        r
    }
}

} // verus!
