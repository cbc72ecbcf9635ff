//! Audit records: what is kept of a request. Keys, tokens, queries and the texts
//! of notes are no part of it.
use vstd::prelude::*;

use crate::auth::AccessScope;
use crate::text::str_option;

verus! {

/// Request metadata safe to expose to audit logging and tool handlers. It
/// excludes the API key and the query.
pub struct AuditContext {
    pub request_id: u64,
    pub credential_fingerprint: String,
    pub scope: AccessScope,
}

/// The name of a scope in audit records.
pub open spec fn scope_name(scope: AccessScope) -> Seq<char> {
    match scope {
        AccessScope::Tech => "tech"@,
        AccessScope::Private => "private"@,
    }
}

impl AuditContext {
    pub fn scope_label(&self) -> (r: &'static str)
        ensures
            r@ == scope_name(self.scope),
    {
        match self.scope {
            AccessScope::Tech => "tech",
            AccessScope::Private => "private",
        }
    }

    pub fn copy(&self) -> (r: AuditContext)
        ensures
            r == *self,
    {
        AuditContext {
            request_id: self.request_id,
            credential_fingerprint: self.credential_fingerprint.clone(),
            scope: self.scope,
        }
    }
}

/// How a client is told apart in audit records.
pub const CLIENT_TYPE: &'static str = "api_key";

/// A request that was turned away.
pub struct RejectedRecord {
    pub event: &'static str,
    pub request_id: u64,
    pub method: String,
    pub path: String,
    pub status: u16,
    pub outcome: &'static str,
    pub duration_ms: u64,
}

pub fn rejected(
    request_id: u64,
    method: &str,
    path: &str,
    status: u16,
    outcome: &'static str,
    duration_ms: u64,
) -> (r: RejectedRecord)
    ensures
        r.event@ == "mcp_request_rejected"@,
        r.request_id == request_id,
        r.method@ == method@,
        r.path@ == path@,
        r.status == status,
        r.outcome@ == outcome@,
        r.duration_ms == duration_ms,
{
    RejectedRecord {
        event: "mcp_request_rejected",
        request_id,
        method: method.to_owned(),
        path: path.to_owned(),
        status,
        outcome,
        duration_ms,
    }
}

/// A request that was answered.
pub struct CompletedRecord {
    pub event: &'static str,
    pub request_id: u64,
    pub credential_fingerprint: String,
    pub scope: &'static str,
    pub client_type: &'static str,
    pub operation: &'static str,
    pub method: String,
    pub path: String,
    pub status: u16,
    pub bytes: u64,
    pub duration_ms: u64,
}

pub fn completed(
    context: &AuditContext,
    method: &str,
    path: &str,
    status: u16,
    bytes: u64,
    duration_ms: u64,
) -> (r: CompletedRecord)
    ensures
        r.event@ == "mcp_request"@,
        r.request_id == context.request_id,
        r.credential_fingerprint@ == context.credential_fingerprint@,
        r.scope@ == scope_name(context.scope),
        r.client_type@ == CLIENT_TYPE@,
        r.operation@ == "http"@,
        r.method@ == method@,
        r.path@ == path@,
        r.status == status,
        r.bytes == bytes,
        r.duration_ms == duration_ms,
{
    CompletedRecord {
        event: "mcp_request",
        request_id: context.request_id,
        credential_fingerprint: context.credential_fingerprint.clone(),
        scope: context.scope_label(),
        client_type: CLIENT_TYPE,
        operation: "http",
        method: method.to_owned(),
        path: path.to_owned(),
        status,
        bytes,
        duration_ms,
    }
}

/// A call of a tool. `document_id` is empty where there is none; `bytes` is
/// there for the tool that writes.
pub struct ToolRecord {
    pub event: &'static str,
    pub request_id: u64,
    pub credential_fingerprint: String,
    pub scope: &'static str,
    pub client_type: &'static str,
    pub operation: &'static str,
    pub outcome: &'static str,
    pub document_id: String,
    pub bytes: Option<u64>,
}

/// Whether a record tells of a call of a tool in this context.
pub open spec fn records_tool(
    record: ToolRecord,
    context: AuditContext,
    operation: Seq<char>,
    outcome: Seq<char>,
    document_id: Option<Seq<char>>,
    bytes: Option<u64>,
) -> bool {
    &&& record.event@ == "mcp_tool"@
    &&& record.request_id == context.request_id
    &&& record.credential_fingerprint@ == context.credential_fingerprint@
    &&& record.scope@ == scope_name(context.scope)
    &&& record.client_type@ == CLIENT_TYPE@
    &&& record.operation@ == operation
    &&& record.outcome@ == outcome
    &&& record.document_id@ == (match document_id {
        Some(id) => id,
        None => Seq::empty(),
    })
    &&& record.bytes == bytes
}

pub fn tool(
    context: &AuditContext,
    operation: &'static str,
    outcome: &'static str,
    document_id: Option<&str>,
) -> (r: ToolRecord)
    ensures
        records_tool(r, *context, operation@, outcome@, str_option(document_id), None),
{
    ToolRecord {
        event: "mcp_tool",
        request_id: context.request_id,
        credential_fingerprint: context.credential_fingerprint.clone(),
        scope: context.scope_label(),
        client_type: CLIENT_TYPE,
        operation,
        outcome,
        document_id: match document_id {
            Some(id) => id.to_owned(),
            None => String::new(),
        },
        bytes: None,
    }
}

/// The record of the tool that changes the knowledge base. `document_id` is the
/// generated path of the note on success and empty on refusal; `bytes` is what
/// was written, or what was attempted when the write was refused.
pub fn tool_write(
    context: &AuditContext,
    operation: &'static str,
    outcome: &'static str,
    document_id: Option<&str>,
    bytes: u64,
) -> (r: ToolRecord)
    ensures
        records_tool(r, *context, operation@, outcome@, str_option(document_id), Some(bytes)),
{
    let mut record = tool(context, operation, outcome, document_id);
    record.bytes = Some(bytes);
    record
}

} // verus!
