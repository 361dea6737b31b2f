//! Listener addressing shared by the socket-based inputs: a plain socket
//! address, or a listen descriptor inherited from the service manager.

use crate::statsd::spec_dec;
use vstd::prelude::*;

verus! {

/// Where a socket input listens: an address of its own, or the systemd
/// file descriptor at the given offset.
#[derive(Clone, Debug, PartialEq, Eq)]
pub enum SocketListenAddr {
    SocketAddr(String),
    SystemdFd(usize),
}

/// The spelling of the systemd descriptor list: `systemd` names the
/// first descriptor, `systemd#N` the N-th, one-based.
pub open spec fn systemd_literal() -> Seq<char> {
    seq!['s', 'y', 's', 't', 'e', 'm', 'd']
}

/// The descriptor offset a listen address denotes: `systemd` is offset
/// zero; `systemd#N` with a whole number N of at least one is offset
/// N minus one, as long as the offset fits the machine; anything else is
/// refused.
pub open spec fn spec_systemd_fd(s: Seq<char>) -> Option<int> {
    if s == systemd_literal() {
        Some(0int)
    } else if s.len() > 8 && s.take(8) == systemd_literal().push('#') {
        match spec_dec(s.skip(8)) {
            Some((n, d)) => if d == 1 && n >= 1 && n - 1 <= usize::MAX {
                Some(n - 1)
            } else {
                None
            },
            None => None,
        }
    } else {
        None
    }
}

/// Whether a seven-character string is exactly `systemd`.
fn is_systemd_word(s: &str) -> (r: bool)
    requires
        s@.len() == 7,
    ensures
        r == (s@ == systemd_literal()),
{
    let r = s.get_char(0) == 's' && s.get_char(1) == 'y' && s.get_char(2) == 's' && s.get_char(
        3,
    ) == 't' && s.get_char(4) == 'e' && s.get_char(5) == 'm' && s.get_char(6) == 'd';
    proof {
        assert(s@ =~= systemd_literal() <==> (s@[0] == 's' && s@[1] == 'y' && s@[2] == 's'
            && s@[3] == 't' && s@[4] == 'e' && s@[5] == 'm' && s@[6] == 'd'));
    }
    r
}

/// Whether the first eight characters are exactly `systemd#`.
fn has_systemd_hash_prefix(s: &str) -> (r: bool)
    requires
        s@.len() >= 8,
    ensures
        r == (s@.take(8) == systemd_literal().push('#')),
{
    let r = s.get_char(0) == 's' && s.get_char(1) == 'y' && s.get_char(2) == 's' && s.get_char(
        3,
    ) == 't' && s.get_char(4) == 'e' && s.get_char(5) == 'm' && s.get_char(6) == 'd'
        && s.get_char(7) == '#';
    proof {
        assert(systemd_literal().push('#') =~= seq!['s', 'y', 's', 't', 'e', 'm', 'd', '#']);
        assert(s@.take(8) =~= seq!['s', 'y', 's', 't', 'e', 'm', 'd', '#'] <==> (s@[0] == 's'
            && s@[1] == 'y' && s@[2] == 's' && s@[3] == 't' && s@[4] == 'e' && s@[5] == 'm'
            && s@[6] == 'd' && s@[7] == '#'));
    }
    r
}

/// Parse a `systemd` or `systemd#N` address into a descriptor offset.
pub fn parse_systemd_fd(s: &str) -> (r: Option<usize>)
    ensures
        r matches Some(n) ==> spec_systemd_fd(s@) == Some(n as int),
        r is None ==> spec_systemd_fd(s@) is None,
{
    let n = s.unicode_len();
    if n == 7 {
        if is_systemd_word(s) {
            Some(0)
        } else {
            None
        }
    } else if n > 8 {
        if has_systemd_hash_prefix(s) {
            let digits = s.substring_char(8, n);
            proof {
                assert(digits@ =~= s@.skip(8));
                assert(s@ != systemd_literal());
            }
            match crate::statsd::parse_decimal(digits) {
                Some(v) => {
                    if v.den == 1 && v.num >= 1 && (v.num - 1) as u64 <= usize::MAX as u64 {
                        Some((v.num - 1) as usize)
                    } else {
                        None
                    }
                },
                None => None,
            }
        } else {
            None
        }
    } else {
        proof {
            if n == 7 {
                assert(false);
            }
            assert(s@ != systemd_literal());
        }
        None
    }
}

} // verus!
