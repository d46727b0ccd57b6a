//! How a predicate call is found in a recorded game state.
//!
//! A state is keyed by predicate rather than one field per concept, and a call
//! with arguments is recorded under a key built from them. The key format is
//! defined here once, so every lookup agrees with the recording.
use crate::text::{joined, texts};
use vstd::prelude::*;
use vstd::string::*;

verus! {

/// The key a call of `name` with the rendered `args` is recorded under:
/// the bare name with no arguments, else `name(arg,arg)`.
pub open spec fn key_text(name: Seq<char>, args: Seq<Seq<char>>) -> Seq<char> {
    if args.len() == 0 {
        name
    } else {
        name + seq!['('] + joined(args, seq![',']) + seq![')']
    }
}

/// The key a call is recorded under.
pub fn call_key(name: &str, args: &[String]) -> (key: String)
    ensures
        key@ == key_text(name@, texts(args@)),
{
    let mut key = String::from_str(name);
    if args.len() == 0 {
        return key;
    }
    proof {
        reveal_strlit("(");
        reveal_strlit(",");
        reveal_strlit(")");
    }
    key.append("(");
    let ghost start = key@;
    let mut i: usize = 0;
    while i < args.len()
        invariant
            i <= args@.len(),
            args@.len() > 0,
            start == name@ + seq!['('],
            key@ == start + joined(texts(args@).take(i as int), seq![',']),
        decreases args@.len() - i,
    {
        proof {
            let t = texts(args@);
            assert(t.take(i as int + 1).drop_last() =~= t.take(i as int));
            assert(t.take(i as int + 1).last() == args@[i as int]@);
        }
        let ghost k0 = key@;
        proof {
            reveal_strlit(",");
        }
        if i > 0 {
            key.append(",");
        }
        let ghost k1 = key@;
        key.append(args[i].as_str());
        assert(key@ == k1 + args@[i as int]@);
        assert(i > 0 ==> k1 == k0 + seq![',']);
        proof {
            let t = texts(args@);
            let next = t.take(i as int + 1);
            if i == 0 {
                assert(next.len() == 1);
                assert(joined(next, seq![',']) == next[0]);
            } else {
                assert(joined(next, seq![',']) == joined(next.drop_last(), seq![',']) + seq![','] + next.last());
                assert(k0 == start + joined(next.drop_last(), seq![',']));
                assert(key@ =~= start + joined(next, seq![',']));
            }
        }
        i += 1;
    }
    key.append(")");
    proof {
        assert(texts(args@).take(args@.len() as int) =~= texts(args@));
    }
    key
}

} // verus!
