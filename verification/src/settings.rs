//! What the environment tells the server: the port it listens on, and after how
//! long without work it exits.
use vstd::prelude::*;

use crate::number::{all_decimal, lemma_decimal_value, number_in, parse_number, without_plus};
use crate::text::{begins, decimal, decimal_text, opt_str};

verus! {

pub const DEFAULT_PORT: u16 = 9225;

/// The port that a setting gives; without a good one, the usual port.
pub open spec fn port_setting(setting: Option<Seq<char>>) -> nat {
    match setting {
        Some(s) => match number_in(s, 0xffff) {
            Some(port) => port,
            None => DEFAULT_PORT as nat,
        },
        None => DEFAULT_PORT as nat,
    }
}

/// The port to listen on.
pub fn listen_port(setting: Option<&str>) -> (r: u16)
    ensures
        r == port_setting(opt_str(setting)),
{
    match setting {
        Some(s) => match parse_number(s, 0xffff) {
            Some(port) => port as u16,
            None => DEFAULT_PORT,
        },
        None => DEFAULT_PORT,
    }
}

/// The seconds without work that a setting gives; without a good one, zero, which
/// stands for no limit.
pub open spec fn idle_setting(setting: Option<Seq<char>>) -> nat {
    match setting {
        Some(s) => match number_in(s, u64::MAX as nat) {
            Some(secs) => secs,
            None => 0,
        },
        None => 0,
    }
}

/// After how many seconds without work the server exits; zero for never.
pub fn idle_timeout(setting: Option<&str>) -> (r: u64)
    ensures
        r == idle_setting(opt_str(setting)),
{
    match setting {
        Some(s) => match parse_number(s, u64::MAX) {
            Some(secs) => secs,
            None => 0,
        },
        None => 0,
    }
}

/// Whether the server has been without work for so long that it exits.
pub fn idle_expired(timeout_secs: u64, quiet_nanos: u128) -> (r: bool)
    ensures
        r == (timeout_secs != 0 && quiet_nanos >= timeout_secs * 1_000_000_000),
        timeout_secs == 0 ==> !r,
        timeout_secs > 0 ==> (r <==> quiet_nanos / 1_000_000_000 >= timeout_secs),
{
    timeout_secs != 0 && quiet_nanos >= timeout_secs as u128 * 1_000_000_000
}

/// The address to listen on, which only this machine can reach.
pub fn listen_addr(port: u16) -> (r: String)
    ensures
        r@ == "127.0.0.1:"@ + decimal(port as nat),
        begins(r@, "127.0.0.1:"@),
        port_setting(Some(r@.skip("127.0.0.1:"@.len() as int))) == port,
{
    let mut addr = "127.0.0.1:".to_owned();
    addr.append(decimal_text(port as u64).as_str());
    proof {
        let host = "127.0.0.1:"@;
        law_good_settings(port as nat);
        assert(addr@.subrange(0, host.len() as int) =~= host);
        assert(addr@.skip(host.len() as int) =~= decimal(port as nat));
    }
    addr
}

/// What the server says of its limit when it starts.
pub fn idle_note(timeout_secs: u64) -> (r: String)
    ensures
        r@ == if timeout_secs == 0 {
            ""@
        } else {
            "（空闲 "@ + decimal(timeout_secs as nat) + "s 自动退出）"@
        },
{
    if timeout_secs == 0 {
        return "".to_owned();
    }
    let mut note = "（空闲 ".to_owned();
    note.append(decimal_text(timeout_secs).as_str());
    note.append("s 自动退出）");
    note
}

/// Whether a text is a number in digits, which may have a plus sign before them.
pub open spec fn is_numeral(s: Seq<char>) -> bool {
    &&& s.len() > 0 && (s[0] == '+' ==> s.len() > 1)
    &&& forall|i: int| 0 <= i < s.len() ==> '0' <= #[trigger] s[i] <= '9' || (i == 0 && s[i] == '+')
}

/// A setting counts where it is a number that is not too great; anything else, or
/// nothing, stands for port 9225 and for no limit.
pub proof fn law_bad_settings(setting: Seq<char>)
    ensures
        port_setting(None) == 9225,
        idle_setting(None) == 0,
        !is_numeral(setting) ==> port_setting(Some(setting)) == 9225 && idle_setting(Some(setting))
            == 0,
{
    let t = without_plus(setting);
    if t.len() > 0 && all_decimal(t) {
        assert forall|i: int| 0 <= i < setting.len() implies '0' <= #[trigger] setting[i] <= '9' || (
        i == 0 && setting[i] == '+') by {
            if setting[0] == '+' {
                if i > 0 {
                    assert(t[i - 1] == setting[i]);
                }
            } else {
                assert(t[i] == setting[i]);
            }
        }
    }
}

/// A number in digits is the setting that it stands for, where it is not too great.
pub proof fn law_good_settings(n: nat)
    ensures
        port_setting(Some(decimal(n))) == if n <= 0xffff {
            n
        } else {
            9225
        },
        idle_setting(Some(decimal(n))) == if n <= u64::MAX {
            n
        } else {
            0
        },
{
    lemma_decimal_value(n);
    let d = decimal(n);
    assert('0' <= d[0] <= '9');
}

} // verus!
