//! Text pieces of the reports: JSON string escaping, key/value lines, alerts
//! and the headings of the text report.
use vstd::prelude::*;

use crate::text::{chars_of, decimal, is_control, is_control_char, owned, string_push, u64_decimal};
use crate::types::{Alert, AlertView, ExperimentMetadata};

verus! {

/// The lowercase hexadecimal digit for `d < 16`.
pub open spec fn hex_digit(d: nat) -> char {
    if d < 10 {
        ((48 + d) as u32) as char
    } else {
        ((87 + d) as u32) as char
    }
}

/// A code point below 0x10000 as four lowercase hexadecimal digits.
pub open spec fn hex4(u: nat) -> Seq<char> {
    seq![
        hex_digit((u / 4096) % 16),
        hex_digit((u / 256) % 16),
        hex_digit((u / 16) % 16),
        hex_digit(u % 16),
    ]
}

/// How one character is written inside a JSON string.
pub open spec fn escape_char(c: char) -> Seq<char> {
    if c == '\\' {
        seq!['\\', '\\']
    } else if c == '"' {
        seq!['\\', '"']
    } else if c == '\n' {
        seq!['\\', 'n']
    } else if c == '\r' {
        seq!['\\', 'r']
    } else if c == '\t' {
        seq!['\\', 't']
    } else if is_control_char(c) {
        seq!['\\', 'u'] + hex4((c as u32) as nat)
    } else {
        seq![c]
    }
}

/// A text written inside a JSON string.
pub open spec fn json_escaped(s: Seq<char>) -> Seq<char>
    decreases s.len(),
{
    if s.len() == 0 {
        Seq::empty()
    } else {
        json_escaped(s.drop_last()) + escape_char(s.last())
    }
}

fn hex_char(d: u32) -> (c: char)
    requires
        d < 16,
    ensures
        c == hex_digit(d as nat),
{
    if d < 10 {
        ((48 + d) as u8) as char
    } else {
        ((87 + d) as u8) as char
    }
}

/// `input` escaped for a JSON string: backslash, quote, line feed, carriage
/// return and tab by their short escapes, other control characters as `\u`
/// with four lowercase hexadecimal digits.
pub fn escape_json(input: &str) -> (r: String)
    ensures
        r@ == json_escaped(input@),
{
    let chars = chars_of(input);
    let mut escaped = String::new();
    let mut i: usize = 0;
    while i < chars.len()
        invariant
            i <= chars.len(),
            chars@ == input@,
            escaped@ == json_escaped(chars@.take(i as int)),
        decreases chars.len() - i,
    {
        let ch = chars[i];
        assert(chars@.take(i + 1).drop_last() =~= chars@.take(i as int));
        let ghost before = escaped@;
        if ch == '\\' || ch == '"' || ch == '\n' || ch == '\r' || ch == '\t' {
            string_push(&mut escaped, '\\');
            let second = if ch == '\\' {
                '\\'
            } else if ch == '"' {
                '"'
            } else if ch == '\n' {
                'n'
            } else if ch == '\r' {
                'r'
            } else {
                't'
            };
            string_push(&mut escaped, second);
        } else if is_control(ch) {
            let u = ch as u32;
            string_push(&mut escaped, '\\');
            string_push(&mut escaped, 'u');
            string_push(&mut escaped, hex_char((u / 4096) % 16));
            string_push(&mut escaped, hex_char((u / 256) % 16));
            string_push(&mut escaped, hex_char((u / 16) % 16));
            string_push(&mut escaped, hex_char(u % 16));
            assert(escaped@ =~= before + escape_char(ch));
        } else {
            string_push(&mut escaped, ch);
        }
        assert(escaped@ =~= before + escape_char(ch));
        i = i + 1;
    }
    assert(chars@.take(chars.len() as int) =~= chars@);
    escaped
}

/// `n` spaces.
pub open spec fn spaces_of(n: nat) -> Seq<char> {
    Seq::new(n, |i: int| ' ')
}

fn push_spaces(out: &mut String, n: usize)
    ensures
        final(out)@ == old(out)@ + spaces_of(n as nat),
{
    let ghost start = out@;
    let mut i: usize = 0;
    while i < n
        invariant
            i <= n,
            out@ == start + spaces_of(i as nat),
        decreases n - i,
    {
        string_push(out, ' ');
        assert(start + spaces_of((i + 1) as nat) =~= (start + spaces_of(i as nat)).push(' '));
        i = i + 1;
    }
}

/// The line ending of a JSON pair, with or without a comma.
pub open spec fn pair_end(comma: bool) -> Seq<char> {
    if comma {
        seq![',', '\n']
    } else {
        seq!['\n']
    }
}

/// An indented JSON line `"key": "value"`.
pub open spec fn json_str_line(key: Seq<char>, value: Seq<char>, spaces: nat, comma: bool) -> Seq<char> {
    spaces_of(spaces) + seq!['"'] + json_escaped(key) + seq!['"', ':', ' ', '"'] + json_escaped(
        value,
    ) + seq!['"'] + pair_end(comma)
}

/// An indented JSON line `"key": value` with a raw value.
pub open spec fn json_raw_line(key: Seq<char>, value: Seq<char>, spaces: nat, comma: bool) -> Seq<char> {
    spaces_of(spaces) + seq!['"'] + json_escaped(key) + seq!['"', ':', ' '] + value + pair_end(
        comma,
    )
}

fn push_pair_end(out: &mut String, comma: bool)
    ensures
        final(out)@ == old(out)@ + pair_end(comma),
{
    let ghost start = out@;
    if comma {
        string_push(out, ',');
    }
    string_push(out, '\n');
    assert(out@ =~= start + pair_end(comma));
}

/// The line `"key": "value"` indented by `spaces`, both escaped, with a comma
/// when `comma` holds.
pub fn json_pair_str(key: &str, value: &str, spaces: usize, comma: bool) -> (r: String)
    ensures
        r@ == json_str_line(key@, value@, spaces as nat, comma),
{
    let mut out = String::new();
    push_spaces(&mut out, spaces);
    string_push(&mut out, '"');
    let k = escape_json(key);
    out.append(k.as_str());
    string_push(&mut out, '"');
    string_push(&mut out, ':');
    string_push(&mut out, ' ');
    string_push(&mut out, '"');
    let v = escape_json(value);
    out.append(v.as_str());
    string_push(&mut out, '"');
    push_pair_end(&mut out, comma);
    assert(out@ =~= json_str_line(key@, value@, spaces as nat, comma));
    out
}

fn json_pair_raw(key: &str, value: &str, spaces: usize, comma: bool) -> (r: String)
    ensures
        r@ == json_raw_line(key@, value@, spaces as nat, comma),
{
    let mut out = String::new();
    push_spaces(&mut out, spaces);
    string_push(&mut out, '"');
    let k = escape_json(key);
    out.append(k.as_str());
    string_push(&mut out, '"');
    string_push(&mut out, ':');
    string_push(&mut out, ' ');
    out.append(value);
    push_pair_end(&mut out, comma);
    assert(out@ =~= json_raw_line(key@, value@, spaces as nat, comma));
    out
}

/// The line `"key": n` (or `"key": null`) indented by `spaces`.
pub fn json_pair_opt_usize(key: &str, value: Option<usize>, spaces: usize, comma: bool) -> (r: String)
    ensures
        r@ == json_raw_line(
            key@,
            match value {
                Some(v) => decimal(v as nat),
                None => "null"@,
            },
            spaces as nat,
            comma,
        ),
{
    let formatted = match value {
        Some(v) => u64_decimal(v as u64),
        None => owned("null"),
    };
    json_pair_raw(key, formatted.as_str(), spaces, comma)
}

/// The line `"key": n` for a whole number, indented by `spaces`.
pub fn json_pair_uint(key: &str, value: u64, spaces: usize, comma: bool) -> (r: String)
    ensures
        r@ == json_raw_line(key@, decimal(value as nat), spaces as nat, comma),
{
    let formatted = u64_decimal(value);
    json_pair_raw(key, formatted.as_str(), spaces, comma)
}

/// An alert as a line of the text report: `  - [severity:code:Llevel] message`.
pub open spec fn alert_line(a: AlertView) -> Seq<char> {
    "  - ["@ + a.severity + ":"@ + a.code + ":L"@ + decimal(a.interpretation_level as nat) + "] "@
        + a.message + "\n"@
}

/// An alert as a line of the text report.
pub fn format_alert(alert: &Alert) -> (r: String)
    ensures
        r@ == alert_line(alert@),
{
    let mut out = owned("  - [");
    out.append(alert.severity.as_str());
    out.append(":");
    out.append(alert.code.as_str());
    out.append(":L");
    let level = u64_decimal(alert.interpretation_level as u64);
    out.append(level.as_str());
    out.append("] ");
    out.append(alert.message.as_str());
    out.append("\n");
    out
}

/// One alert as a JSON object indented by `spaces`, without the separator
/// that follows it.
pub open spec fn alert_object(a: AlertView, spaces: nat) -> Seq<char> {
    spaces_of(spaces + 2) + seq!['{', '\n'] + json_str_line("code"@, a.code, spaces + 4, true)
        + json_str_line("severity"@, a.severity, spaces + 4, true) + json_raw_line(
        "interpretation_level"@,
        decimal(a.interpretation_level as nat),
        spaces + 4,
        true,
    ) + json_str_line("message"@, a.message, spaces + 4, false) + spaces_of(spaces + 2) + seq![
        ' ',
        '}',
    ]
}

fn alert_object_string(alert: &Alert, spaces: usize) -> (r: String)
    requires
        spaces + 4 <= usize::MAX,
    ensures
        r@ == alert_object(alert@, spaces as nat),
{
    let mut out = String::new();
    push_spaces(&mut out, spaces + 2);
    string_push(&mut out, '{');
    string_push(&mut out, '\n');
    let a = json_pair_str("code", alert.code.as_str(), spaces + 4, true);
    out.append(a.as_str());
    let b = json_pair_str("severity", alert.severity.as_str(), spaces + 4, true);
    out.append(b.as_str());
    let c = json_pair_uint("interpretation_level", alert.interpretation_level as u64, spaces + 4, true);
    out.append(c.as_str());
    let d = json_pair_str("message", alert.message.as_str(), spaces + 4, false);
    out.append(d.as_str());
    push_spaces(&mut out, spaces + 2);
    string_push(&mut out, ' ');
    string_push(&mut out, '}');
    proof {
        reveal_strlit("code");
        reveal_strlit("severity");
        reveal_strlit("interpretation_level");
        reveal_strlit("message");
    }
    assert(out@ =~= alert_object(alert@, spaces as nat));
    out
}

/// The objects of the first `n` alerts, each followed by a comma unless it is
/// the last alert, and a line feed.
pub open spec fn alert_objects(alerts: Seq<AlertView>, n: nat, spaces: nat) -> Seq<char>
    decreases n,
{
    if n == 0 {
        Seq::empty()
    } else {
        alert_objects(alerts, (n - 1) as nat, spaces) + alert_object(alerts[n - 1], spaces) + (if n
            != alerts.len() {
            seq![',', '\n']
        } else {
            seq!['\n']
        })
    }
}

/// A JSON array of alerts whose closing bracket is indented by `spaces`.
pub open spec fn alerts_array(alerts: Seq<AlertView>, spaces: nat) -> Seq<char> {
    if alerts.len() == 0 {
        seq!['[', ']']
    } else {
        seq!['[', '\n'] + alert_objects(alerts, alerts.len(), spaces) + spaces_of(spaces) + seq![
            ']',
        ]
    }
}

/// The alerts as a JSON array (`[]` when there are none).
pub fn alerts_json(alerts: &Vec<Alert>, spaces: usize) -> (r: String)
    requires
        spaces + 4 <= usize::MAX,
    ensures
        r@ == alerts_array(alerts.deep_view(), spaces as nat),
{
    let ghost av = alerts.deep_view();
    if alerts.len() == 0 {
        let r = owned("[]");
        proof {
            reveal_strlit("[]");
        }
        assert(r@ =~= alerts_array(av, spaces as nat));
        return r;
    }
    let mut out = String::new();
    string_push(&mut out, '[');
    string_push(&mut out, '\n');
    let mut index: usize = 0;
    while index < alerts.len()
        invariant
            index <= alerts.len(),
            av == alerts.deep_view(),
            spaces + 4 <= usize::MAX,
            out@ == seq!['[', '\n'] + alert_objects(av, index as nat, spaces as nat),
        decreases alerts.len() - index,
    {
        let alert = &alerts[index];
        let ghost before = out@;
        let obj = alert_object_string(alert, spaces);
        out.append(obj.as_str());
        if index + 1 != alerts.len() {
            string_push(&mut out, ',');
        }
        string_push(&mut out, '\n');
        assert(out@ =~= seq!['[', '\n'] + alert_objects(av, (index + 1) as nat, spaces as nat));
        index = index + 1;
    }
    push_spaces(&mut out, spaces);
    string_push(&mut out, ']');
    assert(out@ =~= alerts_array(av, spaces as nat));
    out
}

// ---------------------------------------------------------------------------
// Text report headings
// ---------------------------------------------------------------------------

/// The alert lines of the text report, each prefixed by `indent`.
pub open spec fn alert_lines(alerts: Seq<AlertView>, indent: Seq<char>) -> Seq<char>
    decreases alerts.len(),
{
    if alerts.len() == 0 {
        Seq::empty()
    } else {
        alert_lines(alerts.drop_last(), indent) + indent + alert_line(alerts.last())
    }
}

fn push_alert_lines(out: &mut String, alerts: &Vec<Alert>, indent: &str)
    ensures
        final(out)@ == old(out)@ + alert_lines(alerts.deep_view(), indent@),
{
    let ghost av = alerts.deep_view();
    let ghost start = out@;
    let mut i: usize = 0;
    assert(av.take(0) =~= Seq::<AlertView>::empty());
    assert(start + alert_lines(av.take(0), indent@) =~= start);
    while i < alerts.len()
        invariant
            i <= alerts.len(),
            av == alerts.deep_view(),
            out@ == start + alert_lines(av.take(i as int), indent@),
        decreases alerts.len() - i,
    {
        let line = format_alert(&alerts[i]);
        out.append(indent);
        out.append(line.as_str());
        proof {
            let t = av.take(i + 1);
            assert(t.drop_last() =~= av.take(i as int));
            assert(t.last() == alerts@[i as int]@);
            assert(out@ =~= start + alert_lines(t, indent@));
        }
        i = i + 1;
    }
    assert(av.take(alerts.len() as int) =~= av);
}

/// The "Max chars cap" line of the text report, with the blank line after it.
pub open spec fn max_chars_line(max_chars: Option<usize>) -> Seq<char> {
    match max_chars {
        Some(c) => "Max chars cap: "@ + decimal(c as nat) + "\n\n"@,
        None => "Max chars cap: none\n\n"@,
    }
}

/// The opening of the text report: title, run metadata and sizes, then the
/// global alerts under their own heading when there are any.
pub open spec fn report_heading(
    m: ExperimentMetadata,
    input_byte_len: nat,
    input_char_len: nat,
    cleaned_char_len: nat,
    global_alerts: Seq<AlertView>,
) -> Seq<char> {
    "RRLANG ANALYSIS REPORT\n"@ + "======================\n\n"@ + "Experiment: "@
        + m.experiment_name@ + "\n"@ + "Status: "@ + m.status@ + "\n"@ + "Language: "@
        + m.language@ + "\n"@ + "Input: "@ + m.input_path@ + "\n"@ + "Input bytes: "@ + decimal(
        input_byte_len,
    ) + "\n"@ + "Input chars: "@ + decimal(input_char_len) + "\n"@ + "Cleaned chars: "@ + decimal(
        cleaned_char_len,
    ) + "\n"@ + "Null samples per null model: "@ + decimal(m.null_samples as nat) + "\n"@
        + "Seed: "@ + decimal(m.seed as nat) + "\n"@ + "Tool version: "@ + m.tool_version@ + "\n"@
        + "Hyphen policy: "@ + m.hyphen_policy@ + "\n"@ + max_chars_line(m.max_chars) + (
    if global_alerts.len() == 0 {
        Seq::empty()
    } else {
        "Global alerts:\n"@ + alert_lines(global_alerts, Seq::empty()) + "\n"@
    })
}

/// The opening of the text report for a run.
pub fn report_text_heading(
    metadata: &ExperimentMetadata,
    input_byte_len: usize,
    input_char_len: usize,
    cleaned_char_len: usize,
    global_alerts: &Vec<Alert>,
) -> (r: String)
    ensures
        r@ == report_heading(
            *metadata,
            input_byte_len as nat,
            input_char_len as nat,
            cleaned_char_len as nat,
            global_alerts.deep_view(),
        ),
{
    let mut out = owned("RRLANG ANALYSIS REPORT\n");
    out.append("======================\n\n");
    out.append("Experiment: ");
    out.append(metadata.experiment_name.as_str());
    out.append("\n");
    out.append("Status: ");
    out.append(metadata.status.as_str());
    out.append("\n");
    out.append("Language: ");
    out.append(metadata.language.as_str());
    out.append("\n");
    out.append("Input: ");
    out.append(metadata.input_path.as_str());
    out.append("\n");
    out.append("Input bytes: ");
    out.append(u64_decimal(input_byte_len as u64).as_str());
    out.append("\n");
    out.append("Input chars: ");
    out.append(u64_decimal(input_char_len as u64).as_str());
    out.append("\n");
    out.append("Cleaned chars: ");
    out.append(u64_decimal(cleaned_char_len as u64).as_str());
    out.append("\n");
    out.append("Null samples per null model: ");
    out.append(u64_decimal(metadata.null_samples as u64).as_str());
    out.append("\n");
    out.append("Seed: ");
    out.append(u64_decimal(metadata.seed).as_str());
    out.append("\n");
    out.append("Tool version: ");
    out.append(metadata.tool_version.as_str());
    out.append("\n");
    out.append("Hyphen policy: ");
    out.append(metadata.hyphen_policy.as_str());
    out.append("\n");
    let ghost head = out@;
    match metadata.max_chars {
        Some(c) => {
            out.append("Max chars cap: ");
            out.append(u64_decimal(c as u64).as_str());
            out.append("\n\n");
        },
        None => {
            out.append("Max chars cap: none\n\n");
        },
    }
    assert(out@ =~= head + max_chars_line(metadata.max_chars));
    let ghost mid = out@;
    if global_alerts.len() > 0 {
        out.append("Global alerts:\n");
        push_alert_lines(&mut out, global_alerts, "");
        out.append("\n");
        proof {
            reveal_strlit("");
            assert(""@ =~= Seq::<char>::empty());
            assert(out@ =~= mid + ("Global alerts:\n"@ + alert_lines(
                global_alerts.deep_view(),
                Seq::empty(),
            ) + "\n"@));
        }
    } else {
        assert(out@ =~= mid + Seq::<char>::empty());
    }
    out
}

/// The opening of an event's section in the text report: its name,
/// description and count, then its alerts when there are any.
pub open spec fn event_heading(
    event_name: Seq<char>,
    description: Seq<char>,
    event_count: nat,
    alerts: Seq<AlertView>,
) -> Seq<char> {
    "  Event: "@ + event_name + "\n"@ + "    description: "@ + description + "\n"@
        + "    event_count: "@ + decimal(event_count) + "\n"@ + (if alerts.len() == 0 {
        Seq::empty()
    } else {
        "    alerts:\n"@ + alert_lines(alerts, "    "@)
    })
}

/// The opening of an event's section in the text report.
pub fn event_text_heading(event_name: &str, description: &str, event_count: usize, alerts: &Vec<Alert>) -> (r: String)
    ensures
        r@ == event_heading(event_name@, description@, event_count as nat, alerts.deep_view()),
{
    let mut out = owned("  Event: ");
    out.append(event_name);
    out.append("\n");
    out.append("    description: ");
    out.append(description);
    out.append("\n");
    out.append("    event_count: ");
    out.append(u64_decimal(event_count as u64).as_str());
    out.append("\n");
    if alerts.len() > 0 {
        out.append("    alerts:\n");
        push_alert_lines(&mut out, alerts, "    ");
    }
    out
}

} // verus!
