//! Routes below `/memory` and the actions that they ask for.

use vstd::prelude::*;
use vstd::string::*;

verus! {

/// Byte limit of accepted HTTP requests.
pub const HTTP_MAX_PAYLOAD_SIZE: usize = 51200;

/// The method of an HTTP request.
#[derive(Debug, Clone, Copy, PartialEq, Eq)]
pub enum Method {
    /// `GET`
    Get,
    /// `PUT`
    Put,
    /// `PATCH`
    Patch,
}

/// What a request below `/memory` asks the monitor to do.
#[derive(Debug, Clone, Copy, PartialEq, Eq)]
pub enum VmmAction {
    /// Report which pages are resident and which of them are empty.
    GetMemory,
    /// Report where guest memory is mapped.
    GetMemoryMappings,
    /// Report the dirty pages.
    GetMemoryDirty,
    /// Report the dirty pages and start over.
    ResetMemoryDirty,
    /// Report the pages in the hypervisor's dirty log.
    GetKvmDirty,
    /// Report the pages in the hypervisor's dirty log that the guest wrote.
    GetKvmDirtyWrites,
    /// Report the blocks that changed since the last checkpoint.
    GetDirtyDelta,
    /// Hand out the blocks that changed since the last checkpoint.
    GetDirtyDeltaPacked {
        /// Whether the delta is to stand without the checkpoint before it.
        keyframe: bool,
    },
}

/// A request that was understood.
#[derive(Debug, Clone, Copy, PartialEq, Eq)]
pub struct ParsedRequest {
    /// The action, run while the caller waits.
    pub action: VmmAction,
}

impl ParsedRequest {
    /// A request for `action`, run while the caller waits.
    pub fn new_sync(action: VmmAction) -> (request: ParsedRequest)
        ensures
            request.action == action,
    {
        ParsedRequest { action }
    }
}

/// A request that was not understood.
#[derive(Debug, PartialEq, Eq)]
pub enum RequestError {
    /// No such path for that method.
    InvalidPathMethod(String, Method),
}

/// The action that the path `/memory/<tokens>` stands for, or the path to complain about. Tokens
/// past those that settle the action are not looked at.
pub open spec fn memory_route(tokens: Seq<String>) -> Result<VmmAction, Seq<char>> {
    if tokens.len() == 0 {
        Ok(VmmAction::GetMemory)
    } else if tokens[0]@ == "mappings"@ {
        Ok(VmmAction::GetMemoryMappings)
    } else if tokens[0]@ == "dirty"@ {
        if tokens.len() == 1 {
            Ok(VmmAction::GetMemoryDirty)
        } else if tokens[1]@ == "reset"@ {
            Ok(VmmAction::ResetMemoryDirty)
        } else {
            Err("/memory/dirty/..."@)
        }
    } else if tokens[0]@ == "kvm-dirty"@ {
        Ok(VmmAction::GetKvmDirty)
    } else if tokens[0]@ == "kvm-dirty-writes"@ {
        Ok(VmmAction::GetKvmDirtyWrites)
    } else if tokens[0]@ == "dirty-delta"@ {
        Ok(VmmAction::GetDirtyDelta)
    } else if tokens[0]@ == "dirty-delta-packed"@ {
        if tokens.len() == 1 {
            Ok(VmmAction::GetDirtyDeltaPacked { keyframe: false })
        } else if tokens[1]@ == "keyframe"@ {
            Ok(VmmAction::GetDirtyDeltaPacked { keyframe: true })
        } else {
            Err("/memory/dirty-delta-packed/"@ + tokens[1]@)
        }
    } else {
        Err("/memory/"@ + tokens[0]@)
    }
}

/// How many tokens are asked for to settle where a request goes: a second one only below `dirty`
/// and `dirty-delta-packed`.
pub open spec fn tokens_asked_for(first: Option<Seq<char>>) -> int {
    if first == Some("dirty"@) || first == Some("dirty-delta-packed"@) {
        2
    } else {
        1
    }
}

/// Whether a second token has to be asked for, once the first is known.
pub fn wants_second_token(first: &Option<String>) -> (wants: bool)
    ensures
        wants == (tokens_asked_for(
            match first {
                Some(token) => Some(token@),
                None => None,
            },
        ) == 2),
{
    match first {
        Some(token) => token_is(token, "dirty") || token_is(token, "dirty-delta-packed"),
        None => false,
    }
}

fn token_is(token: &String, word: &str) -> (same: bool)
    ensures
        same == (token@ == word@),
{
    *token == word.to_owned()
}

fn invalid_path(prefix: &str, rest: &String) -> (error: RequestError)
    ensures
        error matches RequestError::InvalidPathMethod(path, method) && path@ == prefix@ + rest@
            && method == Method::Get,
{
    let mut path: String = prefix.to_owned();
    path.append(rest.as_str());
    RequestError::InvalidPathMethod(path, Method::Get)
}

/// Understands a `GET` request below `/memory` from the tokens of the rest of its path.
pub fn parse_get_memory(path_tokens: &Vec<String>) -> (res: Result<ParsedRequest, RequestError>)
    ensures
        match res {
            Ok(request) => memory_route(path_tokens@) == Ok::<VmmAction, Seq<char>>(request.action),
            Err(RequestError::InvalidPathMethod(path, method)) => {
                &&& memory_route(path_tokens@) == Err::<VmmAction, Seq<char>>(path@)
                &&& method == Method::Get
            },
        },
{
    if path_tokens.len() == 0 {
        return Ok(ParsedRequest::new_sync(VmmAction::GetMemory));
    }
    let token = &path_tokens[0];
    if token_is(token, "mappings") {
        Ok(ParsedRequest::new_sync(VmmAction::GetMemoryMappings))
    } else if token_is(token, "dirty") {
        if path_tokens.len() == 1 {
            Ok(ParsedRequest::new_sync(VmmAction::GetMemoryDirty))
        } else if token_is(&path_tokens[1], "reset") {
            Ok(ParsedRequest::new_sync(VmmAction::ResetMemoryDirty))
        } else {
            Err(RequestError::InvalidPathMethod("/memory/dirty/...".to_owned(), Method::Get))
        }
    } else if token_is(token, "kvm-dirty") {
        Ok(ParsedRequest::new_sync(VmmAction::GetKvmDirty))
    } else if token_is(token, "kvm-dirty-writes") {
        Ok(ParsedRequest::new_sync(VmmAction::GetKvmDirtyWrites))
    } else if token_is(token, "dirty-delta") {
        Ok(ParsedRequest::new_sync(VmmAction::GetDirtyDelta))
    } else if token_is(token, "dirty-delta-packed") {
        if path_tokens.len() == 1 {
            Ok(ParsedRequest::new_sync(VmmAction::GetDirtyDeltaPacked { keyframe: false }))
        } else if token_is(&path_tokens[1], "keyframe") {
            Ok(ParsedRequest::new_sync(VmmAction::GetDirtyDeltaPacked { keyframe: true }))
        } else {
            Err(invalid_path("/memory/dirty-delta-packed/", &path_tokens[1]))
        }
    } else {
        Err(invalid_path("/memory/", token))
    }
}

/// Only the tokens that are asked for decide where a request goes: two requests that agree on those
/// go the same way.
pub proof fn tokens_asked_for_decide(a: Seq<String>, b: Seq<String>)
    requires
        ({
            let asked = tokens_asked_for(
                if a.len() > 0 {
                    Some(a[0]@)
                } else {
                    None
                },
            );
            &&& a.len() >= asked <==> b.len() >= asked
            &&& a.len() < asked ==> a.len() == b.len()
            &&& forall|i: int| 0 <= i < asked && i < a.len() ==> #[trigger] a[i]@ == b[i]@
        }),
    ensures
        memory_route(a) == memory_route(b),
{
    if a.len() > 0 {
        assert(a[0]@ == b[0]@);
        if tokens_asked_for(Some(a[0]@)) == 2 && a.len() > 1 {
            assert(a[1]@ == b[1]@);
        } else if tokens_asked_for(Some(a[0]@)) == 2 {
            assert(a.len() == 1);
        }
    }
}

} // verus!
