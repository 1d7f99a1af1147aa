//! Identities: every secret, source or destination, is addressed by a
//! `namespace/name` string. This module builds such identities and splits
//! them back into their two fields.

use vstd::prelude::*;
use vstd::string::{StrSliceExecFns, StringExecFns};
use crate::types::{DestinationItem, SourceItem};

verus! {

/// The identity string of a namespaced object: namespace, slash, name.
pub open spec fn identity_of(ns: Seq<char>, name: Seq<char>) -> Seq<char> {
    ns + seq!['/'] + name
}

/// The characters before the first slash, or the whole string if there
/// is none.
pub open spec fn before_sep(s: Seq<char>) -> Seq<char>
    decreases s.len(),
{
    if s.len() == 0 {
        Seq::empty()
    } else if s[0] == '/' {
        Seq::empty()
    } else {
        seq![s[0]] + before_sep(s.drop_first())
    }
}

/// The characters after the first slash, or the empty string if there
/// is none.
pub open spec fn after_sep(s: Seq<char>) -> Seq<char>
    decreases s.len(),
{
    if s.len() == 0 {
        Seq::empty()
    } else if s[0] == '/' {
        s.drop_first()
    } else {
        after_sep(s.drop_first())
    }
}

/// Relates the recursive split functions to the position of the first
/// slash: left of it stands `before_sep`, right of it `after_sep`.
pub proof fn lemma_sep_split(s: Seq<char>, i: int)
    requires
        0 <= i <= s.len(),
        forall|j: int| 0 <= j < i ==> s[j] != '/',
        i == s.len() || s[i] == '/',
    ensures
        i == s.len() ==> !s.contains('/') && before_sep(s) == s,
        i < s.len() ==> s.contains('/') && before_sep(s) == s.take(i) && after_sep(s) == s.skip(
            i + 1,
        ),
    decreases s.len(),
{
    if s.len() == 0 {
        assert(before_sep(s) =~= s);
    } else if i == 0 && s[0] == '/' {
        assert(s.contains('/'));
        assert(before_sep(s) =~= s.take(0));
        assert(after_sep(s) =~= s.skip(1));
    } else {
        // i >= 1, so s[0] != '/'
        lemma_sep_split(s.drop_first(), i - 1);
        assert(forall|j: int| 0 <= j < i - 1 ==> s.drop_first()[j] == s[j + 1]);
        if i == s.len() {
            assert(!s.contains('/')) by {
                if s.contains('/') {
                    let j = choose|j: int| 0 <= j < s.len() && s[j] == '/';
                    assert(s.drop_first()[j - 1] == '/');
                    assert(s.drop_first().contains('/'));
                }
            }
            assert(before_sep(s) =~= seq![s[0]] + s.drop_first());
            assert(before_sep(s) =~= s);
        } else {
            assert(s.contains('/'));
            assert(s.drop_first().take(i - 1) =~= s.take(i).drop_first());
            assert(before_sep(s) =~= seq![s[0]] + s.take(i).drop_first());
            assert(before_sep(s) =~= s.take(i));
            assert(s.drop_first().skip(i) =~= s.skip(i + 1));
        }
    }
}

/// Index of the first slash of `s`, if any.
fn find_sep(s: &str) -> (r: Option<usize>)
    ensures
        match r {
            Option::Some(i) => i < s@.len() && s@[i as int] == '/' && (forall|j: int|
                0 <= j < i ==> s@[j] != '/'),
            Option::None => forall|j: int| 0 <= j < s@.len() ==> s@[j] != '/',
        },
{
    let n = s.unicode_len();
    let mut i: usize = 0;
    while i < n
        invariant
            n == s@.len(),
            i <= n,
            forall|j: int| 0 <= j < i ==> s@[j] != '/',
        decreases n - i,
    {
        if s.get_char(i) == '/' {
            return Option::Some(i);
        }
        i = i + 1;
    }
    Option::None
}

/// Build the identity string `namespace/name`.
pub fn make_identity(namespace: &str, name: &str) -> (r: String)
    ensures
        r@ == identity_of(namespace@, name@),
{
    let mut s: String = namespace.to_owned();
    s.append("/");
    s.append(name);
    proof {
        reveal_strlit("/");
        assert("/"@ =~= seq!['/']);
        assert(s@ =~= identity_of(namespace@, name@));
    }
    s
}

/// The name a destination resolves to: its own `name` where given, the
/// source item's name otherwise.
pub open spec fn dest_name_of(item_name: Seq<char>, d: DestinationItem) -> Seq<char> {
    match d.name {
        Option::Some(n) => n@,
        Option::None => item_name,
    }
}

/// The identity a destination resolves to under a source item of the
/// given name.
pub open spec fn dest_identity_of(item_name: Seq<char>, d: DestinationItem) -> Seq<char> {
    identity_of(d.namespace@, dest_name_of(item_name, d))
}

/// Derive a destination's identity: the destination namespace, a slash,
/// and the destination name, defaulting to the source item's name.
pub fn destination_identity(item_name: &String, d: &DestinationItem) -> (r: String)
    ensures
        r@ == dest_identity_of(item_name@, *d),
{
    match &d.name {
        Option::Some(n) => make_identity(d.namespace.as_str(), n.as_str()),
        Option::None => make_identity(d.namespace.as_str(), item_name.as_str()),
    }
}

/// The destination identities of a source item, in spec order.
pub open spec fn dest_identities_of(item: SourceItem) -> Seq<Seq<char>> {
    Seq::new(
        item.destinations@.len(),
        |i: int| dest_identity_of(item.name@, item.destinations@[i]),
    )
}

/// Split an identity back into namespace and name: the namespace is
/// everything before the first slash, the name the following segment (up
/// to a second slash, if any). `None` when the string holds no slash at
/// all.
pub fn split_identity(id: &str) -> (r: Option<(String, String)>)
    ensures
        r is Some <==> id@.contains('/'),
        r matches Some(p) ==> p.0@ == before_sep(id@) && p.1@ == before_sep(after_sep(id@)),
{
    let n = id.unicode_len();
    match find_sep(id) {
        Option::None => {
            proof {
                lemma_sep_split(id@, n as int);
            }
            Option::None
        },
        Option::Some(i) => {
            proof {
                lemma_sep_split(id@, i as int);
            }
            let ns: String = id.substring_char(0, i).to_owned();
            let rest: &str = id.substring_char(i + 1, n);
            let m = rest.unicode_len();
            let name: String = match find_sep(rest) {
                Option::None => {
                    proof {
                        lemma_sep_split(rest@, m as int);
                    }
                    rest.to_owned()
                },
                Option::Some(j) => {
                    proof {
                        lemma_sep_split(rest@, j as int);
                    }
                    rest.substring_char(0, j).to_owned()
                },
            };
            proof {
                assert(id@.take(i as int) =~= id@.subrange(0, i as int));
            }
            Option::Some((ns, name))
        },
    }
}

} // verus!
