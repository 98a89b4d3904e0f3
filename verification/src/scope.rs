use vstd::prelude::*;
use crate::error::Error;
use crate::models::{GetLibraryContentRequest, MediaLibrarySource};

verus! {

/// One authorization grant: the caller may query this source.
#[derive(Debug, Clone, Copy, PartialEq, Eq, Structural)]
pub struct Entry {
    pub source: MediaLibrarySource,
}

/// True when either the global grants or the per-call grants name the
/// source.
pub open spec fn scope_allows(
    global: Seq<Entry>,
    command: Seq<Entry>,
    source: MediaLibrarySource,
) -> bool {
    (exists|i: int| 0 <= i < global.len() && (#[trigger] global[i]).source == source) || (exists|
        i: int,
    | 0 <= i < command.len() && (#[trigger] command[i]).source == source)
}

fn any_allows(scope: &Vec<Entry>, source: MediaLibrarySource) -> (r: bool)
    ensures
        r == exists|i: int| 0 <= i < scope@.len() && (#[trigger] scope@[i]).source == source,
{
    let mut i: usize = 0;
    while i < scope.len()
        invariant
            i <= scope@.len(),
            forall|j: int| 0 <= j < i ==> (#[trigger] scope@[j]).source != source,
        decreases scope@.len() - i,
    {
        if scope[i].source == source {
            return true;
        }
        i = i + 1;
    }
    false
}

/// The scope gate: pure membership in the union of the two grant sets.
pub fn is_source_allowed(
    global_scope: &Vec<Entry>,
    command_scope: &Vec<Entry>,
    source: MediaLibrarySource,
) -> (r: bool)
    ensures
        r == scope_allows(global_scope@, command_scope@, source),
{
    any_allows(global_scope, source) || any_allows(command_scope, source)
}

/// Consulted before any enumeration: a source outside the caller's scope
/// is refused as forbidden, identifying the source and touching nothing
/// else.
pub fn authorize_get_images(
    global_scope: &Vec<Entry>,
    command_scope: &Vec<Entry>,
    request: &GetLibraryContentRequest,
) -> (r: Result<(), Error>)
    ensures
        r is Ok <==> scope_allows(global_scope@, command_scope@, request.source),
        !scope_allows(global_scope@, command_scope@, request.source) ==> r == Err::<(), Error>(
            Error::MediaLibrarySourceForbidden(request.source),
        ),
{
    if is_source_allowed(global_scope, command_scope, request.source) {
        Ok(())
    } else {
        Err(Error::MediaLibrarySourceForbidden(request.source))
    }
}

/// The sources the global scope grants, one for one and in order,
/// independent of any filesystem state.
pub fn get_available_sources(global_scope: &Vec<Entry>) -> (r: Vec<MediaLibrarySource>)
    ensures
        r@.len() == global_scope@.len(),
        forall|i: int| 0 <= i < r@.len() ==> #[trigger] r@[i] == global_scope@[i].source,
{
    let mut out: Vec<MediaLibrarySource> = Vec::new();
    let mut i: usize = 0;
    while i < global_scope.len()
        invariant
            i <= global_scope@.len(),
            out@.len() == i,
            forall|j: int| 0 <= j < i ==> #[trigger] out@[j] == global_scope@[j].source,
        decreases global_scope@.len() - i,
    {
        out.push(global_scope[i].source);
        i = i + 1;
    }
    out
}

/// A scope in which no entry carries a given source never allows that
/// source: callers outside their scope get `MediaLibrarySourceForbidden`
/// from `authorize_get_images`, and no filesystem walk happens for them.
pub proof fn lemma_scope_gate_denies(
    global: Seq<Entry>,
    command: Seq<Entry>,
    source: MediaLibrarySource,
)
    requires
        forall|i: int| 0 <= i < global.len() ==> (#[trigger] global[i]).source != source,
        forall|i: int| 0 <= i < command.len() ==> (#[trigger] command[i]).source != source,
    ensures
        !scope_allows(global, command, source),
{
}

} // verus!
