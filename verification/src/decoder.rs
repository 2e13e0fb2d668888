use vstd::prelude::*;

use crate::base::{DiffRecord, SnapshotRecord};
use crate::binance_increment::{
    decode_diff, spec_diff_decodes_to, spec_diff_malformed_err, spec_diff_schema_err,
};
use crate::binance_snapshot::{
    decode_snapshot, spec_snapshot_decodes_to, spec_snapshot_malformed_err,
    spec_snapshot_schema_err,
};
use crate::errors::DecodeError;

verus! {

/// A decoded feed message: either an incremental diff or a full snapshot.
#[derive(Debug)]
pub enum DecodedMessage {
    Diff(DiffRecord),
    Snapshot(SnapshotRecord),
}

/// Decodes a raw feed message of either kind; pure and stateless.
///
/// A message in the diff shape decodes as a diff; otherwise the snapshot
/// shape is tried. A bad price-level entry in whichever shape matched is
/// `MalformedLevel`; everything else is `Schema`.
pub fn decode(data: &[u8]) -> (r: Result<DecodedMessage, DecodeError>)
    ensures
        match r {
            Ok(DecodedMessage::Diff(rec)) => spec_diff_decodes_to(data@, rec),
            Ok(DecodedMessage::Snapshot(rec)) => spec_diff_schema_err(data@)
                && spec_snapshot_decodes_to(data@, rec),
            Err(DecodeError::MalformedLevel) => spec_diff_malformed_err(data@) || (
            spec_diff_schema_err(data@) && spec_snapshot_malformed_err(data@)),
            Err(DecodeError::Schema) => spec_diff_schema_err(data@) && spec_snapshot_schema_err(
                data@,
            ),
        },
{
    match decode_diff(data) {
        Ok(d) => Ok(DecodedMessage::Diff(d)),
        Err(DecodeError::MalformedLevel) => Err(DecodeError::MalformedLevel),
        Err(DecodeError::Schema) => match decode_snapshot(data) {
            Ok(s) => Ok(DecodedMessage::Snapshot(s)),
            Err(e) => Err(e),
        },
    }
}

} // verus!
