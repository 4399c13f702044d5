//! The trust classifier: a request is trusted when its user-agent bytes
//! contain the recognized client signature.
use vstd::prelude::*;

verus! {

/// The byte signature a trusted client presents in its user agent:
/// the ASCII text `GMod`.
pub open spec fn signature() -> Seq<u8> {
    seq![71u8, 77u8, 111u8, 100u8]
}

/// The signature occurs in `s` starting at position `i`.
pub open spec fn signature_at(s: Seq<u8>, i: int) -> bool {
    0 <= i && i + 4 <= s.len() && s.subrange(i, i + 4) == signature()
}

/// The signature occurs somewhere in `s`.
pub open spec fn has_signature(s: Seq<u8>) -> bool {
    exists|i: int| #[trigger] signature_at(s, i)
}

/// Whether the user-agent bytes carry the trusted client signature.
pub fn is_trusted_signal(ua: &[u8]) -> (r: bool)
    ensures
        r == has_signature(ua@),
{
    if ua.len() < 4 {
        proof {
            assert(!has_signature(ua@)) by {
                if has_signature(ua@) {
                    let i = choose|i: int| #[trigger] signature_at(ua@, i);
                }
            }
        }
        return false;
    }
    let end: usize = ua.len() - 4;
    let mut i: usize = 0;
    loop
        invariant
            end == ua@.len() - 4,
            i <= end + 1,
            forall|j: int| 0 <= j < i ==> !(#[trigger] signature_at(ua@, j)),
        ensures
            has_signature(ua@) == false,
        decreases end + 1 - i,
    {
        if i > end {
            break;
        }
        if ua[i] == 71 && ua[i + 1] == 77 && ua[i + 2] == 111 && ua[i + 3] == 100 {
            proof {
                let w = ua@.subrange(i as int, i as int + 4);
                assert(w[0] == ua@[i as int]);
                assert(w[1] == ua@[i as int + 1]);
                assert(w[2] == ua@[i as int + 2]);
                assert(w[3] == ua@[i as int + 3]);
                assert(w =~= signature());
                assert(signature_at(ua@, i as int));
            }
            return true;
        }
        proof {
            assert(!signature_at(ua@, i as int)) by {
                if signature_at(ua@, i as int) {
                    let w = ua@.subrange(i as int, i as int + 4);
                    assert(w[0] == ua@[i as int]);
                    assert(w[1] == ua@[i as int + 1]);
                    assert(w[2] == ua@[i as int + 2]);
                    assert(w[3] == ua@[i as int + 3]);
                    assert(signature()[0] == 71u8);
                    assert(signature()[1] == 77u8);
                    assert(signature()[2] == 111u8);
                    assert(signature()[3] == 100u8);
                }
            }
        }
        i = i + 1;
    }
    proof {
        assert(!has_signature(ua@)) by {
            if has_signature(ua@) {
                let j = choose|j: int| #[trigger] signature_at(ua@, j);
            }
        }
    }
    false
}

} // verus!
