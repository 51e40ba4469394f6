//! The JSON journal of a batch of operations.
use vstd::prelude::*;
use vstd::string::{StrSliceExecFns, StringExecFns};

use crate::structs::OperationStatus;

verus! {

/// The lower-case hexadecimal digit for `d < 16`.
pub open spec fn hex_digit(d: int) -> char {
    if d < 10 {
        (d + 48) as char
    } else {
        (d - 10 + 97) as char
    }
}

/// How a character is written inside a JSON string: quote and backslash are
/// escaped, the usual control characters get their short escapes, the other
/// control characters below U+0020 are written `\u00XX`, and every other
/// character stands as it is.
pub open spec fn escape_char(c: char) -> Seq<char> {
    if c == '"' {
        seq!['\\', '"']
    } else if c == '\\' {
        seq!['\\', '\\']
    } else if c == '\n' {
        seq!['\\', 'n']
    } else if c == '\r' {
        seq!['\\', 'r']
    } else if c == '\t' {
        seq!['\\', 't']
    } else if c == '\u{8}' {
        seq!['\\', 'b']
    } else if c == '\u{c}' {
        seq!['\\', 'f']
    } else if (c as u32) < 0x20 {
        seq!['\\', 'u', '0', '0', hex_digit((c as u32 / 16) as int), hex_digit((c as u32 % 16) as int)]
    } else {
        seq![c]
    }
}

/// `s` as the contents of a JSON string.
pub open spec fn json_escape(s: Seq<char>) -> Seq<char>
    decreases s.len(),
{
    if s.len() == 0 {
        Seq::empty()
    } else {
        json_escape(s.drop_last()) + escape_char(s.last())
    }
}

/// The text of the hexadecimal digit `d`.
fn hex_text(d: u32) -> (r: &'static str)
    requires
        d < 16,
    ensures
        r@ == seq![hex_digit(d as int)],
{
    proof {
        reveal_strlit("0");
        reveal_strlit("1");
        reveal_strlit("2");
        reveal_strlit("3");
        reveal_strlit("4");
        reveal_strlit("5");
        reveal_strlit("6");
        reveal_strlit("7");
        reveal_strlit("8");
        reveal_strlit("9");
        reveal_strlit("a");
        reveal_strlit("b");
        reveal_strlit("c");
        reveal_strlit("d");
        reveal_strlit("e");
        reveal_strlit("f");
    }
    match d {
        0 => "0",
        1 => "1",
        2 => "2",
        3 => "3",
        4 => "4",
        5 => "5",
        6 => "6",
        7 => "7",
        8 => "8",
        9 => "9",
        10 => "a",
        11 => "b",
        12 => "c",
        13 => "d",
        14 => "e",
        _ => "f",
    }
}

/// Appends `s`, escaped for a JSON string, to `out`.
fn append_escaped(out: &mut String, s: &str)
    ensures
        final(out)@ == old(out)@ + json_escape(s@),
{
    let n = s.unicode_len();
    let mut i: usize = 0;
    assert(s@.take(0) =~= Seq::<char>::empty());
    while i < n
        invariant
            0 <= i <= n,
            n == s@.len(),
            out@ == old(out)@ + json_escape(s@.take(i as int)),
        decreases n - i,
    {
        let c = s.get_char(i);
        assert(s@.take(i + 1).drop_last() =~= s@.take(i as int));
        assert(s@.take(i + 1).last() == c);
        let u = c as u32;
        proof {
            reveal_strlit("\\\"");
            reveal_strlit("\\\\");
            reveal_strlit("\\n");
            reveal_strlit("\\r");
            reveal_strlit("\\t");
            reveal_strlit("\\b");
            reveal_strlit("\\f");
            reveal_strlit("\\u00");
        }
        if c == '"' {
            out.append("\\\"");
        } else if c == '\\' {
            out.append("\\\\");
        } else if c == '\n' {
            out.append("\\n");
        } else if c == '\r' {
            out.append("\\r");
        } else if c == '\t' {
            out.append("\\t");
        } else if c == '\u{8}' {
            out.append("\\b");
        } else if c == '\u{c}' {
            out.append("\\f");
        } else if u < 0x20 {
            out.append("\\u00");
            out.append(hex_text(u / 16));
            out.append(hex_text(u % 16));
        } else {
            out.append(s.substring_char(i, i + 1));
        }
        assert(out@ =~= old(out)@ + json_escape(s@.take(i + 1)));
        i = i + 1;
    }
    assert(s@.take(n as int) =~= s@);
}

/// The journal line of one operation, without its line break: a JSON object
/// whose four fields hold the escaped texts.
pub open spec fn json_entry(
    source: Seq<char>,
    destination: Seq<char>,
    code: Seq<char>,
    description: Seq<char>,
) -> Seq<char> {
    "    { \"source\":\""@ + json_escape(source) + "\", \"destination\":\""@ + json_escape(
        destination,
    ) + "\", \"status\":\""@ + json_escape(code) + "\", \"status_description\" : \""@
        + json_escape(description) + "\" }"@
}

/// The journal line of operation `i` of `total`: entries are separated by a
/// comma, and the last one ends the line without one.
pub open spec fn json_line(
    files: Seq<(String, String)>,
    status: Seq<(String, String)>,
    i: int,
    total: int,
) -> Seq<char> {
    json_entry(files[i].0@, files[i].1@, status[i].0@, status[i].1@) + if i + 1 < total {
        ",\n"@
    } else {
        "\n"@
    }
}

/// The first `k` journal lines of `total`.
pub open spec fn json_lines(
    files: Seq<(String, String)>,
    status: Seq<(String, String)>,
    k: int,
    total: int,
) -> Seq<char>
    decreases k,
{
    if k <= 0 {
        Seq::empty()
    } else {
        json_lines(files, status, k - 1, total) + json_line(files, status, k - 1, total)
    }
}

/// The whole journal: a JSON array with one object per recorded status.
pub open spec fn json_document(files: Seq<(String, String)>, status: Seq<(String, String)>) -> Seq<
    char,
> {
    "[\n"@ + json_lines(files, status, status.len() as int, status.len() as int) + "]\n\n"@
}

/// Texts put one after the other with `sep` between each two of them.
pub open spec fn joined(items: Seq<Seq<char>>, sep: Seq<char>) -> Seq<char>
    decreases items.len(),
{
    if items.len() == 0 {
        Seq::empty()
    } else if items.len() == 1 {
        items[0]
    } else {
        joined(items.drop_last(), sep) + sep + items.last()
    }
}

/// The journal objects of the recorded operations, in order.
pub open spec fn json_entries(files: Seq<(String, String)>, status: Seq<(String, String)>) -> Seq<
    Seq<char>,
> {
    Seq::new(
        status.len(),
        |i: int| json_entry(files[i].0@, files[i].1@, status[i].0@, status[i].1@),
    )
}

/// The first `k` journal lines, for `0 < k <= total`, are the first `k`
/// objects separated by a comma and a line break, followed by a comma when
/// more objects come, or by the last line break.
proof fn lemma_json_lines_joined(
    files: Seq<(String, String)>,
    status: Seq<(String, String)>,
    k: int,
)
    requires
        0 < k <= status.len(),
        status.len() <= files.len(),
    ensures
        json_lines(files, status, k, status.len() as int) == joined(
            json_entries(files, status).take(k),
            ",\n"@,
        ) + if k < status.len() {
            ",\n"@
        } else {
            "\n"@
        },
    decreases k,
{
    let entries = json_entries(files, status);
    if k == 1 {
        assert(entries.take(1) =~= seq![entries[0]]);
        assert(json_lines(files, status, 0, status.len() as int) == Seq::<char>::empty());
    } else {
        lemma_json_lines_joined(files, status, k - 1);
        assert(entries.take(k).drop_last() =~= entries.take(k - 1));
        assert(entries.take(k).last() == entries[k - 1]);
    }
}

/// The journal is a JSON array: one object per recorded operation, in order,
/// each two separated by a comma, between `[` and `]`.
pub proof fn lemma_journal_is_array(files: Seq<(String, String)>, status: Seq<(String, String)>)
    requires
        status.len() <= files.len(),
    ensures
        json_document(files, status) == "[\n"@ + (if status.len() == 0 {
            Seq::empty()
        } else {
            joined(json_entries(files, status), ",\n"@) + "\n"@
        }) + "]\n\n"@,
{
    if status.len() > 0 {
        lemma_json_lines_joined(files, status, status.len() as int);
        assert(json_entries(files, status).take(status.len() as int) =~= json_entries(files, status));
    } else {
        assert("[\n"@ + Seq::<char>::empty() =~= "[\n"@);
    }
}

/// Appends the journal line of one operation, without its line break.
fn append_entry(out: &mut String, source: &str, destination: &str, code: &str, description: &str)
    ensures
        final(out)@ == old(out)@ + json_entry(source@, destination@, code@, description@),
{
    out.append("    { \"source\":\"");
    append_escaped(out, source);
    out.append("\", \"destination\":\"");
    append_escaped(out, destination);
    out.append("\", \"status\":\"");
    append_escaped(out, code);
    out.append("\", \"status_description\" : \"");
    append_escaped(out, description);
    out.append("\" }");
    assert(out@ =~= old(out)@ + json_entry(source@, destination@, code@, description@));
}

/// The journal text for `status`, which the program writes to a file.
pub fn generate_json_string(status: &OperationStatus) -> (r: String)
    requires
        status.status@.len() <= status.files@.len(),
    ensures
        r@ == json_document(status.files@, status.status@),
{
    let total = status.status.len();
    let mut out = String::from_str("[\n");
    let mut i: usize = 0;
    while i < total
        invariant
            0 <= i <= total,
            total == status.status@.len(),
            total <= status.files@.len(),
            out@ == "[\n"@ + json_lines(status.files@, status.status@, i as int, total as int),
        decreases total - i,
    {
        let (source, destination) = &status.files[i];
        let (code, description) = &status.status[i];
        append_entry(&mut out, source.as_str(), destination.as_str(), code.as_str(), description.as_str());
        if i + 1 < total {
            out.append(",\n");
        } else {
            out.append("\n");
        }
        assert(out@ =~= "[\n"@ + json_lines(status.files@, status.status@, i + 1, total as int));
        i = i + 1;
    }
    out.append("]\n\n");
    out
}

} // verus!
