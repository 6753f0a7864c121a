//! Log-line formatting. Each helper builds the exact message for one kind
//! of event; emitting the line (to a file or a logging facade) is the
//! caller's concern, so the core never performs I/O.

use vstd::prelude::*;

use crate::types::DbError;

verus! {

/// Concatenation of two labelled parts: `head ++ a ++ sep ++ b`.
fn format_two(head: &str, a: &str, sep: &str, b: &str) -> (r: String)
    ensures
        r@ == head@ + a@ + sep@ + b@,
{
    let mut s = String::from_str(head);
    s.append(a);
    s.append(sep);
    s.append(b);
    s
}

/// Concatenation of one labelled part: `head ++ a`.
fn format_one(head: &str, a: &str) -> (r: String)
    ensures
        r@ == head@ + a@,
{
    let mut s = String::from_str(head);
    s.append(a);
    s
}

/// The line reporting an error and, through `DbError::message`, its kind.
pub fn log_error(error: &DbError) -> (r: String)
    ensures
        exists|m: Seq<char>| r@ == "Error occurred: "@ + m,
{
    let m = error.message();
    let r = format_one("Error occurred: ", m.as_str());
    proof {
        assert(r@ == "Error occurred: "@ + m@);
    }
    r
}

/// The line reporting an operation and its details.
pub fn log_operation(operation: &str, details: &str) -> (r: String)
    ensures
        r@ == "Operation: "@ + operation@ + " - "@ + details@,
{
    format_two("Operation: ", operation, " - ", details)
}

/// The line reporting a query, with its parameters when given.
pub fn log_query(query: &str, params: Option<&str>) -> (r: String)
    ensures
        match params {
            Some(p) => r@ == "Query: "@ + query@ + " with params: "@ + p@,
            None => r@ == "Query: "@ + query@,
        },
{
    match params {
        Some(p) => format_two("Query: ", query, " with params: ", p),
        None => format_one("Query: ", query),
    }
}

/// The line reporting a transaction action.
pub fn log_transaction(tx_id: &str, action: &str) -> (r: String)
    ensures
        r@ == "Transaction "@ + tx_id@ + ": "@ + action@,
{
    format_two("Transaction ", tx_id, ": ", action)
}

/// The line reporting a security event.
pub fn log_security(event: &str, details: &str) -> (r: String)
    ensures
        r@ == "Security Event: "@ + event@ + " - "@ + details@,
{
    format_two("Security Event: ", event, " - ", details)
}

/// The line reporting an audited action.
pub fn log_audit(action: &str, user: &str, resource: &str) -> (r: String)
    ensures
        r@ == "Audit: User "@ + user@ + " performed "@ + action@ + " on "@ + resource@,
{
    let mut s = String::from_str("Audit: User ");
    s.append(user);
    s.append(" performed ");
    s.append(action);
    s.append(" on ");
    s.append(resource);
    s
}

/// The line reporting a system event.
pub fn log_system(event: &str, details: &str) -> (r: String)
    ensures
        r@ == "System: "@ + event@ + " - "@ + details@,
{
    format_two("System: ", event, " - ", details)
}

/// The line reporting a backup's status.
pub fn log_backup(backup_id: &str, status: &str) -> (r: String)
    ensures
        r@ == "Backup "@ + backup_id@ + ": "@ + status@,
{
    format_two("Backup ", backup_id, ": ", status)
}

/// The line reporting a recovery's status.
pub fn log_recovery(recovery_id: &str, status: &str) -> (r: String)
    ensures
        r@ == "Recovery "@ + recovery_id@ + ": "@ + status@,
{
    format_two("Recovery ", recovery_id, ": ", status)
}

/// The line reporting a replication's status.
pub fn log_replication(replication_id: &str, status: &str) -> (r: String)
    ensures
        r@ == "Replication "@ + replication_id@ + ": "@ + status@,
{
    format_two("Replication ", replication_id, ": ", status)
}

/// The line reporting a maintenance task's status.
pub fn log_maintenance(task: &str, status: &str) -> (r: String)
    ensures
        r@ == "Maintenance "@ + task@ + ": "@ + status@,
{
    format_two("Maintenance ", task, ": ", status)
}

/// The line reporting a monitored metric.
pub fn log_monitoring(metric: &str, value: &str) -> (r: String)
    ensures
        r@ == "Monitoring "@ + metric@ + ": "@ + value@,
{
    format_two("Monitoring ", metric, ": ", value)
}

/// The line reporting an alert.
pub fn log_alert(alert_id: &str, severity: &str, message: &str) -> (r: String)
    ensures
        r@ == "Alert "@ + alert_id@ + " ["@ + severity@ + "]: "@ + message@,
{
    let mut s = String::from_str("Alert ");
    s.append(alert_id);
    s.append(" [");
    s.append(severity);
    s.append("]: ");
    s.append(message);
    s
}

/// The line reporting a compliance requirement's status.
pub fn log_compliance(requirement: &str, status: &str) -> (r: String)
    ensures
        r@ == "Compliance "@ + requirement@ + ": "@ + status@,
{
    format_two("Compliance ", requirement, ": ", status)
}

/// The line reporting a data-quality metric.
pub fn log_data_quality(metric: &str, value: &str) -> (r: String)
    ensures
        r@ == "Data Quality "@ + metric@ + ": "@ + value@,
{
    format_two("Data Quality ", metric, ": ", value)
}

/// The line reporting a data-lineage edge.
pub fn log_data_lineage(source: &str, target: &str) -> (r: String)
    ensures
        r@ == "Data Lineage: "@ + source@ + " -> "@ + target@,
{
    format_two("Data Lineage: ", source, " -> ", target)
}

/// The line reporting a data-governance policy's status.
pub fn log_data_governance(policy: &str, status: &str) -> (r: String)
    ensures
        r@ == "Data Governance "@ + policy@ + ": "@ + status@,
{
    format_two("Data Governance ", policy, ": ", status)
}

/// The line reporting a data-privacy action.
pub fn log_data_privacy(action: &str, details: &str) -> (r: String)
    ensures
        r@ == "Data Privacy "@ + action@ + ": "@ + details@,
{
    format_two("Data Privacy ", action, ": ", details)
}

/// The line reporting a data-security event.
pub fn log_data_security(event: &str, details: &str) -> (r: String)
    ensures
        r@ == "Data Security "@ + event@ + ": "@ + details@,
{
    format_two("Data Security ", event, ": ", details)
}

/// The line reporting a data-compliance requirement's status.
pub fn log_data_compliance(requirement: &str, status: &str) -> (r: String)
    ensures
        r@ == "Data Compliance "@ + requirement@ + ": "@ + status@,
{
    format_two("Data Compliance ", requirement, ": ", status)
}

/// The line reporting an audited data action.
pub fn log_data_audit(action: &str, user: &str, resource: &str) -> (r: String)
    ensures
        r@ == "Data Audit: User "@ + user@ + " performed "@ + action@ + " on "@ + resource@,
{
    let mut s = String::from_str("Data Audit: User ");
    s.append(user);
    s.append(" performed ");
    s.append(action);
    s.append(" on ");
    s.append(resource);
    s
}

/// The line reporting a data-monitoring metric.
pub fn log_data_monitoring(metric: &str, value: &str) -> (r: String)
    ensures
        r@ == "Data Monitoring "@ + metric@ + ": "@ + value@,
{
    format_two("Data Monitoring ", metric, ": ", value)
}

/// The line reporting a data alert.
pub fn log_data_alert(alert_id: &str, severity: &str, message: &str) -> (r: String)
    ensures
        r@ == "Data Alert "@ + alert_id@ + " ["@ + severity@ + "]: "@ + message@,
{
    let mut s = String::from_str("Data Alert ");
    s.append(alert_id);
    s.append(" [");
    s.append(severity);
    s.append("]: ");
    s.append(message);
    s
}

/// The line reporting a data metric.
pub fn log_data_metrics(metric: &str, value: &str) -> (r: String)
    ensures
        r@ == "Data Metrics "@ + metric@ + ": "@ + value@,
{
    format_two("Data Metrics ", metric, ": ", value)
}

/// The line reporting a data-capacity metric.
pub fn log_data_capacity(metric: &str, value: &str) -> (r: String)
    ensures
        r@ == "Data Capacity "@ + metric@ + ": "@ + value@,
{
    format_two("Data Capacity ", metric, ": ", value)
}

/// The line reporting data availability.
pub fn log_data_availability(status: &str) -> (r: String)
    ensures
        r@ == "Data Availability: "@ + status@,
{
    format_one("Data Availability: ", status)
}

/// The line reporting data durability.
pub fn log_data_durability(status: &str) -> (r: String)
    ensures
        r@ == "Data Durability: "@ + status@,
{
    format_one("Data Durability: ", status)
}

/// The line reporting a data-integrity check's status.
pub fn log_data_integrity(check: &str, status: &str) -> (r: String)
    ensures
        r@ == "Data Integrity "@ + check@ + ": "@ + status@,
{
    format_two("Data Integrity ", check, ": ", status)
}

/// The line reporting a data-confidentiality action.
pub fn log_data_confidentiality(action: &str, details: &str) -> (r: String)
    ensures
        r@ == "Data Confidentiality "@ + action@ + ": "@ + details@,
{
    format_two("Data Confidentiality ", action, ": ", details)
}

/// The line reporting an operation's duration in milliseconds, already
/// rendered as text.
pub fn log_performance(operation: &str, duration_ms: u64) -> (r: String)
    ensures
        r@ == "Performance: "@ + operation@ + " took "@ + crate::types::dec_str(duration_ms as nat)
            + "ms"@,
{
    let d = crate::types::u64_to_string(duration_ms);
    let mut s = String::from_str("Performance: ");
    s.append(operation);
    s.append(" took ");
    s.append(d.as_str());
    s.append("ms");
    s
}

/// The line reporting a data operation's duration in milliseconds.
pub fn log_data_performance(operation: &str, duration_ms: u64) -> (r: String)
    ensures
        r@ == "Data Performance: "@ + operation@ + " took "@ + crate::types::dec_str(
            duration_ms as nat,
        ) + "ms"@,
{
    let d = crate::types::u64_to_string(duration_ms);
    let mut s = String::from_str("Data Performance: ");
    s.append(operation);
    s.append(" took ");
    s.append(d.as_str());
    s.append("ms");
    s
}

} // verus!
