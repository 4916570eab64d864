//! JSON text of context receipts.
use vstd::prelude::*;
use vstd::string::StringExecFns;
use crate::context::{lines, ByteRange, ContextReceipt, ContextReceiptEntry, CoverageDisposition, ReceiptLine, ReceiptModel};
use crate::json::{json_array, json_list, json_opt, json_quote, json_string};
use crate::text::{concat3, decimal, decimal_text, size_text, texts};

verus! {

/// The name of a truth value.
pub open spec fn bool_json(value: bool) -> Seq<char> {
    if value {
        "true"@
    } else {
        "false"@
    }
}

fn bool_text(value: bool) -> (r: &'static str)
    ensures
        r@ == bool_json(value),
{
    if value {
        "true"
    } else {
        "false"
    }
}

/// The JSON string of a disposition.
pub open spec fn disposition_json(disposition: CoverageDisposition) -> Seq<char> {
    match disposition {
        CoverageDisposition::Raw => "\"raw\""@,
        CoverageDisposition::Compacted => "\"compacted\""@,
        CoverageDisposition::Excluded => "\"excluded\""@,
    }
}

fn disposition_text(disposition: CoverageDisposition) -> (r: &'static str)
    ensures
        r@ == disposition_json(disposition),
{
    match disposition {
        CoverageDisposition::Raw => "\"raw\"",
        CoverageDisposition::Compacted => "\"compacted\"",
        CoverageDisposition::Excluded => "\"excluded\"",
    }
}

/// The JSON object of a range, or `null`.
pub open spec fn range_json(range: Option<ByteRange>) -> Seq<char> {
    match range {
        None => "null"@,
        Some(range) => "{\"start\":"@ + decimal(range.start as nat) + ",\"end\":"@ + decimal(
            range.end as nat,
        ) + "}"@,
    }
}

fn range_text(range: Option<ByteRange>) -> (r: String)
    ensures
        r@ == range_json(range),
{
    match range {
        None => "null".to_owned(),
        Some(range) => {
            let mut out = concat3("{\"start\":", size_text(range.start).as_str(), ",\"end\":");
            out.append(size_text(range.end).as_str());
            out.append("}");
            out
        },
    }
}

/// The JSON object of a receipt entry; the identity of a secret source is left out.
pub open spec fn line_json(line: ReceiptLine) -> Seq<char> {
    match line {
        ReceiptLine::Source {
            source_id,
            source_sha256,
            disposition,
            source_range,
            reason,
            truncated,
            failure,
            secret_transmitted,
        } => "{\"source_id\":"@ + json_string(source_id) + ",\"source_sha256\":"@ + json_string(
            source_sha256,
        ) + ",\"disposition\":"@ + disposition_json(disposition) + ",\"source_range\":"@
            + range_json(source_range) + ",\"reason\":"@ + json_string(reason)
            + ",\"truncated\":"@ + bool_json(truncated) + ",\"failure\":"@ + json_opt(failure)
            + ",\"secret_transmitted\":"@ + bool_json(secret_transmitted) + "}"@,
        ReceiptLine::Secret { source_sha256, secret_transmitted, .. } => "{\"source_sha256\":"@
            + json_string(source_sha256) + ",\"secret_transmitted\":"@ + bool_json(
            secret_transmitted,
        ) + "}"@,
    }
}

fn line_text(entry: &ContextReceiptEntry) -> (r: String)
    ensures
        r@ == line_json(entry@),
{
    match entry {
        ContextReceiptEntry::Source {
            source_id,
            source_sha256,
            disposition,
            source_range,
            reason,
            truncated,
            failure,
            secret_transmitted,
        } => {
            let mut out = "{\"source_id\":".to_owned();
            out.append(json_quote(source_id.as_str()).as_str());
            out.append(",\"source_sha256\":");
            out.append(json_quote(source_sha256.as_str()).as_str());
            out.append(",\"disposition\":");
            out.append(disposition_text(*disposition));
            out.append(",\"source_range\":");
            out.append(range_text(*source_range).as_str());
            out.append(",\"reason\":");
            out.append(json_quote(reason.as_str()).as_str());
            out.append(",\"truncated\":");
            out.append(bool_text(*truncated));
            out.append(",\"failure\":");
            out.append(crate::json::json_quote_opt(failure).as_str());
            out.append(",\"secret_transmitted\":");
            out.append(bool_text(*secret_transmitted));
            out.append("}");
            out
        },
        ContextReceiptEntry::Secret { source_sha256, secret_transmitted, .. } => {
            let mut out = "{\"source_sha256\":".to_owned();
            out.append(json_quote(source_sha256.as_str()).as_str());
            out.append(",\"secret_transmitted\":");
            out.append(bool_text(*secret_transmitted));
            out.append("}");
            out
        },
    }
}

/// The JSON object of a receipt.
pub open spec fn receipt_json(receipt: ReceiptModel) -> Seq<char> {
    "{\"target\":"@ + json_string(receipt.target) + ",\"role\":"@ + json_string(receipt.role)
        + ",\"budget_tokens\":"@ + decimal(receipt.budget_tokens as nat)
        + ",\"requested_output_tokens\":"@ + decimal(receipt.requested_output_tokens as nat)
        + ",\"context_sha256\":"@ + json_opt(receipt.context_sha256) + ",\"entries\":"@
        + json_list(receipt.entries.map_values(|line: ReceiptLine| line_json(line))) + "}"@
}

fn lines_text(entries: &[ContextReceiptEntry]) -> (r: String)
    ensures
        r@ == json_list(lines(entries@).map_values(|line: ReceiptLine| line_json(line))),
{
    let ghost goal = lines(entries@).map_values(|line: ReceiptLine| line_json(line));
    let mut out: Vec<String> = Vec::new();
    let mut i: usize = 0;
    while i < entries.len()
        invariant
            i <= entries@.len(),
            out@.len() == i,
            goal.len() == entries@.len(),
            forall|k: int|
                0 <= k < entries@.len() ==> #[trigger] goal[k] == line_json(entries@[k]@),
            forall|k: int| 0 <= k < i ==> #[trigger] out@[k]@ == goal[k],
        decreases entries@.len() - i,
    {
        out.push(line_text(&entries[i]));
        i += 1;
    }
    assert(texts(out@) =~= goal);
    json_array(out.as_slice())
}

impl ContextReceipt {
    /// Returns the JSON object of the receipt.
    pub fn to_json(&self) -> (r: String)
        ensures
            r@ == receipt_json(self@),
    {
        let mut out = "{\"target\":".to_owned();
        out.append(json_quote(self.target().as_str()).as_str());
        out.append(",\"role\":");
        out.append(json_quote(self.role()).as_str());
        out.append(",\"budget_tokens\":");
        out.append(decimal_text(self.budget_tokens()).as_str());
        out.append(",\"requested_output_tokens\":");
        out.append(decimal_text(self.requested_output_tokens()).as_str());
        out.append(",\"context_sha256\":");
        match self.context_sha256() {
            Some(text) => {
                out.append(json_quote(text).as_str());
            },
            None => {
                out.append("null");
            },
        }
        out.append(",\"entries\":");
        out.append(lines_text(self.entries()).as_str());
        out.append("}");
        out
    }
}

/// A receipt does not tell secret sources apart: entries that differ in the source alone are
/// written alike.
pub proof fn secret_source_is_not_written(
    source_sha256: Seq<char>,
    secret_transmitted: bool,
    a: Option<crate::context::KeyModel>,
    b: Option<crate::context::KeyModel>,
)
    ensures
        line_json(
            ReceiptLine::Secret {
                source_sha256: source_sha256,
                secret_transmitted: secret_transmitted,
                key: a,
            },
        ) == line_json(
            ReceiptLine::Secret {
                source_sha256: source_sha256,
                secret_transmitted: secret_transmitted,
                key: b,
            },
        ),
{
}

} // verus!
