//! The shared-secret gate.
//!
//! Broadcast-to-all and subscription listing stand behind a bearer token:
//! the request must carry the exact line "Bearer " followed by the
//! configured secret. An unset secret is a server misconfiguration and
//! authorizes nobody.

use vstd::prelude::*;

verus! {

/// Outcome of the bearer-token check.
#[derive(Debug, PartialEq, Eq)]
pub enum AuthOutcome {
    MissingSecret,
    Authorized,
    Unauthorized,
}

/// The exact authorization line a caller must present for `secret`.
pub open spec fn bearer_line(secret: Seq<char>) -> Seq<char> {
    "Bearer "@ + secret
}

/// Checks a request's authorization header against the configured secret:
/// an empty secret reports the misconfiguration, and exactly the header
/// `bearer_line(secret)` authorizes the caller.
pub fn check_auth(header: Option<&str>, secret: &str) -> (r: AuthOutcome)
    ensures
        r == AuthOutcome::MissingSecret <==> secret@.len() == 0,
        r == AuthOutcome::Authorized <==> secret@.len() > 0 && (header matches Some(h) && h@
            == bearer_line(secret@)),
        r == AuthOutcome::Unauthorized <==> secret@.len() > 0 && !(header matches Some(h) && h@
            == bearer_line(secret@)),
{
    proof {
        reveal_strlit("Bearer ");
    }
    let slen = secret.unicode_len();
    if slen == 0 {
        return AuthOutcome::MissingSecret;
    }
    let h = match header {
        Some(h) => h,
        None => {
            return AuthOutcome::Unauthorized;
        },
    };
    let hlen = h.unicode_len();
    if hlen < 7 || hlen - 7 != slen {
        proof {
            assert(bearer_line(secret@).len() == 7 + secret@.len());
        }
        return AuthOutcome::Unauthorized;
    }
    let prefix = "Bearer ";
    let mut i: usize = 0;
    while i < 7
        invariant
            hlen == h@.len(),
            slen == secret@.len(),
            slen > 0,
            hlen == 7 + slen,
            header matches Some(hh) && hh@ == h@,
            0 <= i <= 7,
            forall|j: int| 0 <= j < i ==> h@[j] == bearer_line(secret@)[j],
            prefix@ == "Bearer "@,
        decreases 7 - i,
    {
        proof {
            reveal_strlit("Bearer ");
        }
        let pc = prefix.get_char(i);
        let hc = h.get_char(i);
        proof {
            assert(bearer_line(secret@)[i as int] == "Bearer "@[i as int]);
        }
        if hc != pc {
            proof {
                assert(h@[i as int] != bearer_line(secret@)[i as int]);
            }
            return AuthOutcome::Unauthorized;
        }
        i = i + 1;
    }
    let mut j: usize = 0;
    while j < slen
        invariant
            hlen == h@.len(),
            slen == secret@.len(),
            slen > 0,
            hlen == 7 + slen,
            header matches Some(hh) && hh@ == h@,
            0 <= j <= slen,
            forall|t: int| 0 <= t < 7 ==> h@[t] == bearer_line(secret@)[t],
            forall|t: int| 0 <= t < j ==> #[trigger] h@[7 + t] == bearer_line(secret@)[7 + t],
        decreases slen - j,
    {
        proof {
            reveal_strlit("Bearer ");
        }
        let hc = h.get_char(7 + j);
        let sc = secret.get_char(j);
        proof {
            assert(bearer_line(secret@)[7 + j as int] == secret@[j as int]);
        }
        if hc != sc {
            proof {
                assert(h@[7 + j as int] != bearer_line(secret@)[7 + j as int]);
            }
            return AuthOutcome::Unauthorized;
        }
        j = j + 1;
    }
    proof {
        reveal_strlit("Bearer ");
        assert(bearer_line(secret@).len() == 7 + secret@.len());
        assert forall|t: int| 0 <= t < h@.len() implies h@[t] == bearer_line(secret@)[t] by {
            if t >= 7 {
                assert(h@[7 + (t - 7)] == bearer_line(secret@)[7 + (t - 7)]);
            }
        }
        assert(h@ =~= bearer_line(secret@));
    }
    AuthOutcome::Authorized
}

} // verus!
