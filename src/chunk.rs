use vstd::prelude::*;

verus! {

/// Bytes taken by the length prefix written in front of every record.
pub const RECORD_PREFIX_LEN: usize = 4;

/// Whether a chunk must be closed before `record` is appended to it.
pub open spec fn cut_needed(chunk_len: nat, record_len: nat, max_chunk_size: nat) -> bool {
    chunk_len > 0 && chunk_len + record_len + RECORD_PREFIX_LEN > max_chunk_size
}

/// Decides whether the current chunk has to be closed before `record` is
/// written. An empty chunk is never cut, so every chunk holds at least one
/// record whatever its size.
pub fn should_cut_chunk(chunk: &[u8], record: &[u8], max_chunk_size: usize) -> (r: bool)
    ensures
        r == cut_needed(chunk@.len(), record@.len(), max_chunk_size as nat),
{
    if chunk.len() == 0 {
        return false;
    }
    let total: u128 = chunk.len() as u128 + record.len() as u128 + RECORD_PREFIX_LEN as u128;
    total > max_chunk_size as u128
}

/// Options shared by the backup commands.
pub struct GlobalBackupOpt {
    /// Maximum chunk file size in bytes.
    pub max_chunk_size: usize,
}

/// Options shared by the restore commands.
pub struct GlobalRestoreOpt {
    /// Directory of the database to restore into.
    pub db_dir: String,
}

} // verus!
