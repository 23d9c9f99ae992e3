//! Small decisions of the diagnostics: which build commit to report,
//! whether the tree is dirty, the lock-file name of a profile, the run
//! token's text, and when the trace file is flushed.
use vstd::prelude::*;
use vstd::string::{StrSliceExecFns, StringExecFns};
use crate::text::push_hex2;

verus! {

/// The build commit to report: a non-empty override, else non-empty git
/// output, else `unknown`.
pub fn build_commit_choice(override_value: Option<String>, git_output: Option<String>) -> (r: String)
    ensures
        r@ == match override_value {
            Some(v) if v@.len() > 0 => v@,
            _ => match git_output {
                Some(g) if g@.len() > 0 => g@,
                _ => "unknown"@,
            },
        },
{
    if let Some(v) = override_value {
        if v.as_str().unicode_len() > 0 {
            return v;
        }
    }
    match git_output {
        Some(g) => {
            if g.as_str().unicode_len() > 0 {
                g
            } else {
                String::from_str("unknown")
            }
        },
        None => String::from_str("unknown"),
    }
}

/// Whether the working tree is dirty: unknown without git output, else
/// whether git listed anything.
pub fn build_dirty_from(git_status: Option<String>) -> (r: Option<bool>)
    ensures
        r == match git_status {
            Some(s) => Some(s@.len() > 0),
            None => None,
        },
{
    match git_status {
        Some(s) => Some(s.as_str().unicode_len() > 0),
        None => None,
    }
}

/// Name of the lock file of a profile: `<profile_id>.lock`.
pub fn lock_file_name(profile_id: &str) -> (r: String)
    ensures
        r@ == profile_id@ + ".lock"@,
{
    let mut s = String::from_str(profile_id);
    s.append(".lock");
    s
}

/// Eight bytes as sixteen lowercase hexadecimal digits.
pub open spec fn hex_text(b: Seq<u8>) -> Seq<char>
    decreases b.len(),
{
    if b.len() == 0 { Seq::empty() } else { hex_text(b.drop_last()) + crate::text::hex2(b.last()) }
}

/// The run token's text: the hash bytes in lowercase hexadecimal.
pub fn run_token_text(hash: [u8; 8]) -> (r: String)
    ensures
        r@ == hex_text(hash@),
        r@.len() == 16,
{
    let mut s = String::new();
    let mut i: usize = 0;
    while i < 8
        invariant
            i <= 8,
            hash@.len() == 8,
            s@ == hex_text(hash@.take(i as int)),
            s@.len() == 2 * i,
        decreases 8 - i,
    {
        push_hex2(&mut s, hash[i]);
        proof {
            assert(hash@.take(i + 1).drop_last() =~= hash@.take(i as int));
        }
        i += 1;
    }
    proof {
        broadcast use vstd::array::group_array_axioms;
        assert(hash@.take(8) =~= hash@);
    }
    s
}

/// A run token: the first eight bytes of SHA-256 over `seed`, as sixteen
/// lowercase hexadecimal digits.
pub fn run_token(seed: &[u8]) -> (r: String)
    ensures
        r@ == hex_text(crate::profile::sha256(seed@).subrange(0, 8)),
{
    run_token_text(crate::profile::hash8(seed))
}

/// Trace records are flushed every 64 records.
pub const TRACE_FLUSH_EVERY_RECORDS: u32 = 64;

/// Whether a trace write flushes: a forced (footer) write does, and so does
/// reaching 64 buffered records or a second since the last flush.
pub fn trace_flush_due(records_since_flush: u32, sync: bool, second_elapsed: bool) -> (r: bool)
    ensures
        r == (sync || records_since_flush >= TRACE_FLUSH_EVERY_RECORDS || second_elapsed),
{
    sync || records_since_flush >= TRACE_FLUSH_EVERY_RECORDS || second_elapsed
}

} // verus!
