//! Bulk-data service: serves the bytes of a reveal-mask snapshot
//! identified by an opaque ticket, on its own endpoint so large transfers
//! cannot head-of-line block the control plane.
//!
//! A response is one schema-descriptor frame followed by one data frame
//! carrying a single binary field named `roaring_portable`, tagged with a
//! content type and a format version.

use vstd::prelude::*;

use crate::pointset::spec_wire_parse;
use crate::state::{CanonicalState, StateError};
use crate::tables::assoc_lookup;

verus! {

/// The schema-descriptor frame of a bulk-data response.
pub struct SchemaDescriptorFrame {
    pub field_name: &'static str,
    pub content_type: &'static str,
    pub format_version: &'static str,
}

/// The data frame: the snapshot's framed bytes under the single binary
/// field.
pub struct DataFrame {
    pub roaring_portable: Vec<u8>,
}

/// One bulk-data response, in emission order: schema first, data second.
pub struct GetBytesStream {
    pub schema: SchemaDescriptorFrame,
    pub data: DataFrame,
}

/// A verified byte copy.
fn copy_bytes(src: &[u8]) -> (r: Vec<u8>)
    ensures
        r@ == src@,
{
    let n: usize = src.len();
    let mut out: Vec<u8> = Vec::new();
    let mut i: usize = 0;
    while i < n
        invariant
            n == src@.len(),
            i <= n,
            out@ == src@.subrange(0, i as int),
        decreases n - i,
    {
        out.push(src[i]);
        proof {
            assert(out@ =~= src@.subrange(0, i + 1));
        }
        i = i + 1;
    }
    proof {
        assert(out@ =~= src@);
    }
    out
}

/// Serves the snapshot bytes stored under `ticket`. The returned data
/// frame holds exactly the bytes captured when the ticket was minted, so
/// the content served for a ticket never changes while the ticket lives;
/// an evicted or unknown ticket is refused with `NotFound`.
pub fn do_get(state: &CanonicalState, ticket: u128) -> (r: Result<GetBytesStream, StateError>)
    requires
        state.inv(),
    ensures
        match r {
            Ok(stream) => {
                &&& (assoc_lookup(state.tickets_seq(), ticket) matches Some(s)
                    && stream.data.roaring_portable@ == s.bytes@ && (spec_wire_parse(s.bytes@)
                    matches Ok(ids) && ids.len() == s.count))
                &&& stream.schema.field_name@ == "roaring_portable"@
                &&& stream.schema.content_type@ == "application/x-roaring"@
                &&& stream.schema.format_version@ == "1"@
            },
            Err(e) => e == StateError::NotFound && assoc_lookup(
                state.tickets_seq(),
                ticket,
            ) is None,
        },
{
    let snap = match state.lookup_ticket(ticket) {
        Some(s) => s,
        None => {
            return Err(StateError::NotFound);
        },
    };
    let bytes: Vec<u8> = copy_bytes(snap.bytes.as_slice());
    Ok(GetBytesStream {
        schema: SchemaDescriptorFrame {
            field_name: "roaring_portable",
            content_type: "application/x-roaring",
            format_version: "1",
        },
        data: DataFrame { roaring_portable: bytes },
    })
}

} // verus!
