//! Consistency checks of the options before any work starts.

use vstd::prelude::*;
use crate::args::{earlier, DateTime, FusionArgs};

verus! {

/// Why the options were refused.
#[derive(Debug)]
pub enum ArgsError {
    /// The size limits leave no room: `smaller_than` is below `larger_than`.
    SmallerBelowLarger { smaller_than: u64, larger_than: u64 },
    /// The date limits leave no room: `newer_than` is after `older_than`.
    NewerAfterOlder { newer_than: DateTime, older_than: DateTime },
    /// There is no manifest at the given path.
    ManifestNotFound(String),
}

/// Checks the options: the size limits must allow some size, the date
/// limits some date, and the manifest must exist (`manifest_exists` is the
/// answer of the file system for `args.manifest_path`). The first failing
/// check decides the error.
pub fn validate_args(args: &FusionArgs, manifest_exists: bool) -> (r: Result<(), ArgsError>)
    ensures
        (args.smaller_than matches Some(max) && args.larger_than matches Some(min) && max < min) ==> r
            == Err::<(), ArgsError>(
            ArgsError::SmallerBelowLarger {
                smaller_than: args.smaller_than->Some_0,
                larger_than: args.larger_than->Some_0,
            },
        ),
        !(args.smaller_than matches Some(max) && args.larger_than matches Some(min) && max < min) && (
        args.newer_than matches Some(a) && args.older_than matches Some(b) && earlier(b, a)) ==> r
            == Err::<(), ArgsError>(
            ArgsError::NewerAfterOlder {
                newer_than: args.newer_than->Some_0,
                older_than: args.older_than->Some_0,
            },
        ),
        !(args.smaller_than matches Some(max) && args.larger_than matches Some(min) && max < min)
            && !(args.newer_than matches Some(a) && args.older_than matches Some(b) && earlier(b, a))
            ==> (r is Ok <==> manifest_exists),
        r matches Err(ArgsError::ManifestNotFound(p)) ==> p@ == args.manifest_path@,
{
    if let (Some(max), Some(min)) = (args.smaller_than, args.larger_than) {
        if max < min {
            return Err(ArgsError::SmallerBelowLarger { smaller_than: max, larger_than: min });
        }
    }
    if let (Some(min_date), Some(max_date)) = (args.newer_than, args.older_than) {
        if max_date.is_before(&min_date) {
            return Err(ArgsError::NewerAfterOlder { newer_than: min_date, older_than: max_date });
        }
    }
    if !manifest_exists {
        return Err(ArgsError::ManifestNotFound(args.manifest_path.clone()));
    }
    Ok(())
}

/// The checks of the fusing command before it starts: the same checks as
/// [`validate_args`], with the same errors in the same order.
pub fn verify_args(args: &FusionArgs, manifest_exists: bool) -> (r: Result<(), ArgsError>)
    ensures
        (args.smaller_than matches Some(max) && args.larger_than matches Some(min) && max < min) ==> r
            == Err::<(), ArgsError>(
            ArgsError::SmallerBelowLarger {
                smaller_than: args.smaller_than->Some_0,
                larger_than: args.larger_than->Some_0,
            },
        ),
        !(args.smaller_than matches Some(max) && args.larger_than matches Some(min) && max < min) && (
        args.newer_than matches Some(a) && args.older_than matches Some(b) && earlier(b, a)) ==> r
            == Err::<(), ArgsError>(
            ArgsError::NewerAfterOlder {
                newer_than: args.newer_than->Some_0,
                older_than: args.older_than->Some_0,
            },
        ),
        !(args.smaller_than matches Some(max) && args.larger_than matches Some(min) && max < min)
            && !(args.newer_than matches Some(a) && args.older_than matches Some(b) && earlier(b, a))
            ==> (r is Ok <==> manifest_exists),
        r matches Err(ArgsError::ManifestNotFound(p)) ==> p@ == args.manifest_path@,
{
    validate_args(args, manifest_exists)
}

} // verus!

verus! {

/// What `chrono` writes for the instant `secs` seconds and `nanos`
/// nanoseconds after the Unix epoch, read as a UTC date and time without
/// zone; `None` when the instant is out of `chrono`'s range.
pub uninterp spec fn chrono_datetime_text(secs: i64, nanos: u32) -> Option<Seq<char>>;

/// `chrono::DateTime::from_timestamp`, then `naive_utc` and its `Display`
/// text. The result is taken as the named value [`chrono_datetime_text`] of
/// the arguments.
#[verifier::external_body]
fn datetime_text(secs: i64, nanos: u32) -> (r: Option<String>)
    ensures
        crate::metadata::opt_text(r) == chrono_datetime_text(secs, nanos),
{
    chrono::DateTime::from_timestamp(secs, nanos).map(|d| d.naive_utc().to_string())
}

/// The text of an instant in an error message.
pub open spec fn instant_text(t: DateTime) -> Seq<u8> {
    match chrono_datetime_text(t.secs, t.nanos) {
        Some(s) => vstd::utf8::encode_utf8(s),
        None => vstd::utf8::encode_utf8("an instant out of range"@),
    }
}

/// The message of each refusal.
pub open spec fn args_error_text(e: ArgsError) -> Seq<u8> {
    match e {
        ArgsError::SmallerBelowLarger { smaller_than, larger_than } => vstd::utf8::encode_utf8("`smaller_than` ("@)
            + crate::text::decimal(smaller_than as nat) + vstd::utf8::encode_utf8(
            ") cannot be less than `larger_than` ("@,
        ) + crate::text::decimal(larger_than as nat) + vstd::utf8::encode_utf8(")"@),
        ArgsError::NewerAfterOlder { newer_than, older_than } => vstd::utf8::encode_utf8("`newer_than` ("@)
            + instant_text(newer_than) + vstd::utf8::encode_utf8(") cannot be later than `older_than` ("@)
            + instant_text(older_than) + vstd::utf8::encode_utf8(")"@),
        ArgsError::ManifestNotFound(p) => vstd::utf8::encode_utf8("Cargo.toml not found at "@)
            + vstd::utf8::encode_utf8(p@),
    }
}

fn push_instant(out: &mut Vec<u8>, t: DateTime)
    ensures
        final(out)@ == old(out)@ + instant_text(t),
{
    match datetime_text(t.secs, t.nanos) {
        Some(s) => crate::text::push_str(out, s.as_str()),
        None => crate::text::push_str(out, "an instant out of range"),
    }
}

impl ArgsError {
    /// The message that explains the refusal, as UTF-8 bytes.
    pub fn message(&self) -> (m: Vec<u8>)
        ensures
            m@ == args_error_text(*self),
    {
        let mut out: Vec<u8> = Vec::new();
        match self {
            ArgsError::SmallerBelowLarger { smaller_than, larger_than } => {
                crate::text::push_str(&mut out, "`smaller_than` (");
                crate::text::push_decimal(&mut out, *smaller_than);
                crate::text::push_str(&mut out, ") cannot be less than `larger_than` (");
                crate::text::push_decimal(&mut out, *larger_than);
                crate::text::push_str(&mut out, ")");
            },
            ArgsError::NewerAfterOlder { newer_than, older_than } => {
                crate::text::push_str(&mut out, "`newer_than` (");
                push_instant(&mut out, *newer_than);
                crate::text::push_str(&mut out, ") cannot be later than `older_than` (");
                push_instant(&mut out, *older_than);
                crate::text::push_str(&mut out, ")");
            },
            ArgsError::ManifestNotFound(p) => {
                crate::text::push_str(&mut out, "Cargo.toml not found at ");
                crate::text::push_str(&mut out, p.as_str());
            },
        }
        out
    }
}

} // verus!
