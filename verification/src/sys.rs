use vstd::prelude::*;

use crate::protocol::UnsafeSlice;
use crate::protocol::slices_in_range;
use crate::queryengine::args_of;
use crate::queryengine::spec_lower;
use crate::queryengine::to_lower;
use crate::registry::Registry;
use crate::responses::TSYMBOL_UNICODE;
use crate::responses::action_err_resp;
use crate::responses::ascii_bytes;
use crate::responses::ascii_seq;
use crate::responses::spec_mono;
use crate::responses::unknown_action_resp;
use crate::responses::unknown_metric_resp;
use crate::responses::unknown_property_resp;
use crate::responses::write_action_err;
use crate::responses::write_mono;
use crate::responses::write_unknown_action;
use crate::responses::write_unknown_metric;
use crate::responses::write_unknown_property;

verus! {

broadcast use vstd::slice::group_slice_axioms;

/// The protocol identifier string.
pub open spec fn protocol_version_string() -> Seq<u8> {
    ascii_seq("Skyhash-2.0"@)
}

/// The protocol version, as printed on the wire.
pub open spec fn protocol_version_digits() -> Seq<u8> {
    ascii_seq("2.0"@)
}

/// This build's version string.
pub open spec fn version_string() -> Seq<u8> {
    ascii_seq("0.1.0"@)
}

/// What `SYS` answers: property strings travel as unicode monotype
/// elements; everything else is a canned group. `args` excludes the verb.
pub open spec fn sp_sys(okay: bool, args: Seq<Seq<u8>>) -> Seq<u8> {
    if args.len() != 2 {
        action_err_resp()
    } else {
        let a0 = spec_lower(args[0]);
        let a1 = spec_lower(args[1]);
        if a0 == ascii_seq("info"@) {
            if a1 == ascii_seq("protocol"@) {
                spec_mono(TSYMBOL_UNICODE, protocol_version_string())
            } else if a1 == ascii_seq("protover"@) {
                spec_mono(TSYMBOL_UNICODE, protocol_version_digits())
            } else if a1 == ascii_seq("version"@) {
                spec_mono(TSYMBOL_UNICODE, version_string())
            } else {
                unknown_property_resp()
            }
        } else if a0 == ascii_seq("metric"@) {
            if a1 == ascii_seq("health"@) {
                if okay {
                    spec_mono(TSYMBOL_UNICODE, ascii_seq("good"@))
                } else {
                    spec_mono(TSYMBOL_UNICODE, ascii_seq("critical"@))
                }
            } else {
                unknown_metric_resp()
            }
        } else {
            unknown_action_resp()
        }
    }
}

/// Handle `SYS` queries: `SYS INFO <property>` and `SYS METRIC <metric>`.
/// `elems` excludes the verb.
pub fn sys(reg: &Registry, buf: &[u8], elems: &[UnsafeSlice]) -> (r: Vec<u8>)
    requires
        slices_in_range(elems@, 0, buf@.len() as int),
    ensures
        r@ == sp_sys(reg.spec_state_okay(), args_of(buf@, elems@)),
{
    let ghost args = args_of(buf@, elems@);
    if elems.len() != 2 {
        return write_action_err();
    }
    let a0 = to_lower(elems[0].as_slice(buf));
    let a1 = to_lower(elems[1].as_slice(buf));
    proof {
        assert(a0@ == spec_lower(args[0]));
        assert(a1@ == spec_lower(args[1]));
        reveal_strlit("info");
        reveal_strlit("metric");
        reveal_strlit("protocol");
        reveal_strlit("protover");
        reveal_strlit("version");
        reveal_strlit("health");
        reveal_strlit("good");
        reveal_strlit("critical");
        reveal_strlit("Skyhash-2.0");
        reveal_strlit("2.0");
        reveal_strlit("0.1.0");
    }
    let info = ascii_bytes("info");
    let metric = ascii_bytes("metric");
    if crate::coremap::bytes_eq(a0.as_slice(), info.as_slice()) {
        let protocol = ascii_bytes("protocol");
        let protover = ascii_bytes("protover");
        let version = ascii_bytes("version");
        if crate::coremap::bytes_eq(a1.as_slice(), protocol.as_slice()) {
            let body = ascii_bytes("Skyhash-2.0");
            write_mono(TSYMBOL_UNICODE, body.as_slice())
        } else if crate::coremap::bytes_eq(a1.as_slice(), protover.as_slice()) {
            let body = ascii_bytes("2.0");
            write_mono(TSYMBOL_UNICODE, body.as_slice())
        } else if crate::coremap::bytes_eq(a1.as_slice(), version.as_slice()) {
            let body = ascii_bytes("0.1.0");
            write_mono(TSYMBOL_UNICODE, body.as_slice())
        } else {
            write_unknown_property()
        }
    } else if crate::coremap::bytes_eq(a0.as_slice(), metric.as_slice()) {
        let health = ascii_bytes("health");
        if crate::coremap::bytes_eq(a1.as_slice(), health.as_slice()) {
            if reg.state_okay() {
                let body = ascii_bytes("good");
                write_mono(TSYMBOL_UNICODE, body.as_slice())
            } else {
                let body = ascii_bytes("critical");
                write_mono(TSYMBOL_UNICODE, body.as_slice())
            }
        } else {
            write_unknown_metric()
        }
    } else {
        write_unknown_action()
    }
}

} // verus!
