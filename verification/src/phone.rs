//! Display formatting for stored phone numbers.
use vstd::prelude::*;

verus! {

/// Formats the first ten digits of a phone number as `(ddd) ddd-dddd`.
pub fn phone_pretty(phone: &str) -> (r: String)
    requires
        phone@.len() >= 10,
    ensures
        r@ == seq!['('] + phone@.subrange(0, 3) + seq![')', ' '] + phone@.subrange(3, 6) + seq![
            '-',
        ] + phone@.subrange(6, 10),
{
    proof {
        reveal_strlit("(");
        reveal_strlit(") ");
        reveal_strlit("-");
    }
    let mut out = String::new();
    out.append("(");
    out.append(phone.substring_char(0, 3));
    out.append(") ");
    out.append(phone.substring_char(3, 6));
    out.append("-");
    out.append(phone.substring_char(6, 10));
    proof {
        assert("("@ =~= seq!['(']);
        assert(") "@ =~= seq![')', ' ']);
        assert("-"@ =~= seq!['-']);
        assert(out@ =~= seq!['('] + phone@.subrange(0, 3) + seq![')', ' '] + phone@.subrange(3, 6)
            + seq!['-'] + phone@.subrange(6, 10));
    }
    out
}

} // verus!
