//! Startup snapshots: what running their code and making the blob comes to.
use crate::errors::{plain, raise, raise_owned, Raised, RubyClass, RubyError};
use crate::value::{Fault, VmError};
use vstd::prelude::*;

verus! {

broadcast use vstd::string::group_string_axioms;

/// How a snapshot is made.
#[derive(Debug, Clone, Copy)]
pub struct SnapshotPlan {
    /// Whether there is code to run.
    pub run: bool,
    /// The name that the code runs under.
    pub filename: &'static str,
    /// Whether the blob's context is a fresh one: warming up fills the code
    /// cache and leaves nothing of its run behind.
    pub fresh_context: bool,
}

/// How a snapshot is made: whether there is code to run, its name, and whether the
/// blob's context is a fresh one.
pub open spec fn planned(code: Seq<char>, warmup: bool) -> (bool, Seq<char>, bool) {
    (
        code.len() > 0,
        if warmup {
            "<warmup>"@
        } else {
            "<snapshot>"@
        },
        warmup,
    )
}

/// Any code but the empty one is run. Warming up alone leaves nothing of the run
/// behind, and runs under a name of its own.
pub proof fn law_warmup_leaves_nothing_behind(code: Seq<char>, warmup: bool)
    ensures
        planned(code, warmup).0 <==> code != Seq::<char>::empty(),
        planned(code, warmup).2 <==> warmup,
        planned(code, true).1 == "<warmup>"@,
        planned(code, false).1 == "<snapshot>"@,
{
    if code.len() == 0 {
        assert(code =~= Seq::<char>::empty());
    }
}

/// How a snapshot of some code is made, plain or warming up an older one.
pub fn snapshot_plan(code: &str, warmup: bool) -> (r: SnapshotPlan)
    ensures
        (r.run, r.filename@, r.fresh_context) == planned(code@, warmup),
{
    SnapshotPlan {
        run: code.unicode_len() > 0,
        filename: if warmup { "<warmup>" } else { "<snapshot>" },
        fresh_context: warmup,
    }
}

/// The text of a failure of a snapshot's code.
pub open spec fn failure_text(f: Fault) -> Seq<char> {
    match f {
        Fault::Parse(m) => m,
        Fault::Runtime(m) => m,
        Fault::JsError { message, .. } => message,
        Fault::Terminated => "snapshot code was terminated"@,
    }
}

/// What making a snapshot comes to.
pub open spec fn built(failure: Option<VmError>, blob: Option<Vec<u8>>) -> Result<
    Seq<u8>,
    Raised,
> {
    match failure {
        Some(f) => Err(plain(RubyClass::SnapshotError, failure_text(f@))),
        None => match blob {
            Some(b) => Ok(b@),
            None => Err(plain(RubyClass::SnapshotError, "snapshot creation failed"@)),
        },
    }
}

/// A snapshot is made exactly where its code did not fail and there is a blob, and
/// is that very blob. A failure of the code is told whether there is a blob or not,
/// with the failure's own text and always as a snapshot error.
pub proof fn law_snapshot_is_the_blob(failure: Option<VmError>, blob: Option<Vec<u8>>)
    ensures
        built(failure, blob) is Ok <==> failure is None && blob is Some,
        failure is None ==> (blob matches Some(b) ==> built(failure, blob) == Ok::<
            Seq<u8>,
            Raised,
        >(b@)),
        failure is Some ==> built(failure, blob) == built(failure, None),
        built(failure, blob) matches Err(e) ==> e.class == RubyClass::SnapshotError,
        failure matches Some(VmError::Parse(m)) ==> (built(failure, blob) matches Err(e)
            && e.message == m@),
        failure matches Some(VmError::Runtime(m)) ==> (built(failure, blob) matches Err(e)
            && e.message == m@),
        failure matches Some(VmError::JsError { message, backtrace }) ==> (built(
            failure,
            blob,
        ) matches Err(e) && e.message == message@),
        failure matches Some(VmError::Terminated) ==> (built(failure, blob) matches Err(e)
            && e.message == "snapshot code was terminated"@),
{
}

/// What making a snapshot comes to. The blob is made even where the code failed,
/// since the engine demands it; the failure goes before it.
pub fn build_snapshot(failure: Option<VmError>, blob: Option<Vec<u8>>) -> (r: Result<
    Vec<u8>,
    RubyError,
>)
    ensures
        match (r, built(failure, blob)) {
            (Ok(v), Ok(want)) => v@ == want,
            (Err(e), Err(want)) => e@ == want,
            _ => false,
        },
{
    match failure {
        Some(f) => {
            let m: String = match f {
                VmError::Parse(m) => m,
                VmError::Runtime(m) => m,
                VmError::JsError { message, .. } => message,
                VmError::Terminated => "snapshot code was terminated".to_string(),
            };
            Err(raise_owned(RubyClass::SnapshotError, m))
        },
        None => match blob {
            Some(b) => Ok(b),
            None => Err(raise(RubyClass::SnapshotError, "snapshot creation failed")),
        },
    }
}

/// A startup blob.
#[derive(Debug)]
pub struct Snapshot {
    pub blob: Vec<u8>,
}

/// Whether a blob that was made elsewhere is taken in.
pub open spec fn loadable(bytes: Seq<u8>, valid: bool) -> bool {
    bytes.len() > 0 && valid
}

/// The blob after warming up came to something.
pub open spec fn warmed(blob: Seq<u8>, made: Result<Seq<u8>, Raised>) -> Seq<u8> {
    match made {
        Ok(b) => b,
        Err(_) => blob,
    }
}

/// A blob is taken in exactly where the engine finds it valid and it is not empty;
/// warming up replaces it by what was made and never by anything else.
pub proof fn law_blob_is_replaced_only_by_a_made_one(
    blob: Seq<u8>,
    bytes: Seq<u8>,
    valid: bool,
    b: Seq<u8>,
    e: Raised,
)
    ensures
        loadable(bytes, valid) <==> valid && bytes != Seq::<u8>::empty(),
        warmed(blob, Ok(b)) == b,
        warmed(blob, Err(e)) == blob,
{
    if bytes.len() == 0 {
        assert(bytes =~= Seq::<u8>::empty());
    }
}

impl Snapshot {
    /// Takes in a blob that was made elsewhere, if it is not empty and the
    /// engine finds it valid.
    pub fn load(bytes: Vec<u8>, valid: bool) -> (r: Result<Snapshot, RubyError>)
        ensures
            match r {
                Ok(s) => loadable(bytes@, valid) && s.blob@ == bytes@,
                Err(e) => !loadable(bytes@, valid) && e@ == plain(
                    RubyClass::SnapshotError,
                    "invalid V8 snapshot blob (corrupt, truncated, or built for a different V8 version)"@,
                ),
            },
    {
        if bytes.len() == 0 || !valid {
            Err(
                raise(
                    RubyClass::SnapshotError,
                    "invalid V8 snapshot blob (corrupt, truncated, or built for a different V8 version)",
                ),
            )
        } else {
            Ok(Snapshot { blob: bytes })
        }
    }

    /// Replaces the blob by a warmer one; where that could not be made, the blob
    /// stays.
    pub fn warmup(&mut self, made: Result<Vec<u8>, RubyError>) -> (r: Result<(), RubyError>)
        ensures
            final(self).blob@ == warmed(
                old(self).blob@,
                match made {
                    Ok(b) => Ok(b@),
                    Err(e) => Err(e@),
                },
            ),
            match made {
                Ok(_) => r is Ok,
                Err(e) => r matches Err(got) && got@ == e@ && *final(self) == *old(self),
            },
    {
        match made {
            Ok(b) => {
                self.blob = b;
                Ok(())
            },
            Err(e) => Err(e),
        }
    }

    /// The size of the blob.
    pub fn size(&self) -> (r: usize)
        ensures
            r == self.blob@.len(),
    {
        self.blob.len()
    }
}

} // verus!
