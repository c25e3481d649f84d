use vstd::prelude::*;

use crate::json::{
    entries_depth, entries_model, items_depth, items_model, json_depth, lemma_array_model,
    lemma_entries_depth, lemma_items_depth, lemma_object_model, Json, JsonValue,
};
use crate::text::{
    chars_of, contains_char, copy_string, lines, lines_of, push_char, push_chars, push_string,
};

verus! {

// ---------------------------------------------------------------------------
// Indentation and escaping
// ---------------------------------------------------------------------------

/// Two spaces per indentation level.
pub open spec fn indent_text(n: nat) -> Seq<char>
    decreases n,
{
    if n == 0 {
        seq![]
    } else {
        indent_text((n - 1) as nat) + seq![' ', ' ']
    }
}

/// Appends `indent` levels of indentation to `buf`.
pub fn write_indent(buf: &mut String, indent: usize)
    ensures
        final(buf)@ == old(buf)@ + indent_text(indent as nat),
{
    let mut i: usize = 0;
    while i < indent
        invariant
            i <= indent,
            buf@ == old(buf)@ + indent_text(i as nat),
        decreases indent - i,
    {
        push_char(buf, ' ');
        push_char(buf, ' ');
        proof {
            assert(indent_text((i + 1) as nat) == indent_text(i as nat) + seq![' ', ' ']);
            assert(buf@ =~= old(buf)@ + indent_text((i + 1) as nat));
        }
        i += 1;
    }
}

/// What the character at `i` of `s` becomes inside a Nix double-quoted
/// string: `\`, `"`, newline, tab and carriage return get a backslash escape,
/// and a `$` that opens an interpolation `${` is escaped as `\$`.
pub open spec fn escape_piece(s: Seq<char>, i: int) -> Seq<char> {
    let c = s[i];
    if c == '\\' {
        seq!['\\', '\\']
    } else if c == '"' {
        seq!['\\', '"']
    } else if c == '\n' {
        seq!['\\', 'n']
    } else if c == '\t' {
        seq!['\\', 't']
    } else if c == '\r' {
        seq!['\\', 'r']
    } else if c == '$' && i + 1 < s.len() && s[i + 1] == '{' {
        seq!['\\', '$']
    } else {
        seq![c]
    }
}

/// The escaped form of the first `n` characters of `s`.
pub open spec fn escape_prefix(s: Seq<char>, n: nat) -> Seq<char>
    decreases n,
{
    if n == 0 {
        seq![]
    } else {
        escape_prefix(s, (n - 1) as nat) + escape_piece(s, n - 1)
    }
}

/// `s` escaped for a Nix double-quoted string.
pub open spec fn nix_escaped(s: Seq<char>) -> Seq<char> {
    escape_prefix(s, s.len())
}

/// Appends the escape of `s[i]` to `buf`.
fn push_escape_piece(buf: &mut String, s: &Vec<char>, i: usize)
    requires
        i < s@.len(),
    ensures
        final(buf)@ == old(buf)@ + escape_piece(s@, i as int),
{
    let c = s[i];
    if c == '\\' {
        push_char(buf, '\\');
        push_char(buf, '\\');
    } else if c == '"' {
        push_char(buf, '\\');
        push_char(buf, '"');
    } else if c == '\n' {
        push_char(buf, '\\');
        push_char(buf, 'n');
    } else if c == '\t' {
        push_char(buf, '\\');
        push_char(buf, 't');
    } else if c == '\r' {
        push_char(buf, '\\');
        push_char(buf, 'r');
    } else if c == '$' && s.len() - i > 1 && s[i + 1] == '{' {
        push_char(buf, '\\');
        push_char(buf, '$');
    } else {
        push_char(buf, c);
    }
    proof {
        assert(final(buf)@ =~= old(buf)@ + escape_piece(s@, i as int));
    }
}

/// Appends `nix_escaped(s)` to `buf`.
fn push_escaped(buf: &mut String, s: &Vec<char>)
    ensures
        final(buf)@ == old(buf)@ + nix_escaped(s@),
{
    let mut i: usize = 0;
    while i < s.len()
        invariant
            i <= s.len(),
            buf@ == old(buf)@ + escape_prefix(s@, i as nat),
        decreases s.len() - i,
    {
        let ghost before = buf@;
        push_escape_piece(buf, s, i);
        proof {
            assert(escape_prefix(s@, (i + 1) as nat) == escape_prefix(s@, i as nat) + escape_piece(s@, i as int));
            assert(buf@ =~= old(buf)@ + escape_prefix(s@, (i + 1) as nat));
        }
        i += 1;
    }
}

/// Escape a string for use inside Nix double-quoted strings.
pub fn nix_escape(s: &str) -> (out: String)
    ensures
        out@ == nix_escaped(s@),
{
    let v = chars_of(s);
    let mut out = String::new();
    push_escaped(&mut out, &v);
    proof {
        assert(out@ =~= nix_escaped(s@));
    }
    out
}

/// Whether `s` holds two consecutive single quotes `''`.
pub open spec fn has_two_quotes(s: Seq<char>) -> bool {
    exists|i: int| 0 <= i && i + 1 < s.len() && #[trigger] s[i] == '\'' && s[i + 1] == '\''
}

/// What a `$` becomes in a Nix indented string: `''$`, except right after a
/// single quote, where `''$` would be read as the escape `'''` and a bare
/// `$`; there it is written as the interpolation `${"$"}`.
pub open spec fn dollar_piece(after_quote: bool) -> Seq<char> {
    if after_quote {
        seq!['$', '{', '"', '$', '"', '}']
    } else {
        seq!['\'', '\'', '$']
    }
}

/// The first `n` characters of `s` with every `$` escaped by `dollar_piece`.
pub open spec fn dollar_prefix(s: Seq<char>, n: nat) -> Seq<char>
    decreases n,
{
    if n == 0 {
        seq![]
    } else {
        dollar_prefix(s, (n - 1) as nat) + if s[n - 1] == '$' {
            dollar_piece(n >= 2 && s[n - 2] == '\'')
        } else {
            seq![s[n - 1]]
        }
    }
}

/// `s` escaped for one line of a Nix indented string `'' ... ''`, so that
/// Nix reads the line back as `s`: a line that holds `''` becomes an
/// interpolated double-quoted string `${"..." }`; otherwise each `$` is
/// written `''$` (as `${"$"}` right after a single quote).
pub open spec fn nix_escaped_indented(s: Seq<char>) -> Seq<char> {
    if has_two_quotes(s) {
        seq!['$', '{', '"'] + nix_escaped(s) + seq!['"', ' ', '}']
    } else {
        dollar_prefix(s, s.len())
    }
}

fn holds_two_quotes(s: &Vec<char>) -> (r: bool)
    ensures
        r == has_two_quotes(s@),
{
    if s.len() == 0 {
        return false;
    }
    let mut i: usize = 0;
    while s.len() - i > 1
        invariant
            i <= s.len(),
            forall|j: int| 0 <= j < i && j + 1 < s@.len() ==> !(#[trigger] s@[j] == '\'' && s@[j + 1] == '\''),
        decreases s.len() - i,
    {
        if s[i] == '\'' && s[i + 1] == '\'' {
            return true;
        }
        i += 1;
    }
    false
}

/// Escape a string for use inside Nix indented ('' ... '') strings.
pub fn nix_escape_indented(s: &str) -> (out: String)
    ensures
        out@ == nix_escaped_indented(s@),
{
    let v = chars_of(s);
    let mut out = String::new();
    if holds_two_quotes(&v) {
        push_char(&mut out, '$');
        push_char(&mut out, '{');
        push_char(&mut out, '"');
        push_escaped(&mut out, &v);
        push_char(&mut out, '"');
        push_char(&mut out, ' ');
        push_char(&mut out, '}');
        proof {
            assert(out@ =~= nix_escaped_indented(s@));
        }
    } else {
        let mut i: usize = 0;
        while i < v.len()
            invariant
                i <= v.len(),
                out@ == dollar_prefix(v@, i as nat),
            decreases v.len() - i,
        {
            if v[i] == '$' {
                if i >= 1 && v[i - 1] == '\'' {
                    push_char(&mut out, '$');
                    push_char(&mut out, '{');
                    push_char(&mut out, '"');
                    push_char(&mut out, '$');
                    push_char(&mut out, '"');
                    push_char(&mut out, '}');
                } else {
                    push_char(&mut out, '\'');
                    push_char(&mut out, '\'');
                    push_char(&mut out, '$');
                }
            } else {
                push_char(&mut out, v[i]);
            }
            proof {
                assert(out@ =~= dollar_prefix(v@, (i + 1) as nat));
            }
            i += 1;
        }
    }
    out
}

/// A character that may start a bare Nix identifier: `[a-zA-Z_]`.
pub open spec fn ident_start(c: char) -> bool {
    ('a' <= c && c <= 'z') || ('A' <= c && c <= 'Z') || c == '_'
}

/// A character that may continue a bare Nix identifier: `[0-9a-zA-Z_-]`.
pub open spec fn ident_rest(c: char) -> bool {
    ident_start(c) || ('0' <= c && c <= '9') || c == '-'
}

/// `s` matches `[a-zA-Z_][0-9a-zA-Z_-]*`.
pub open spec fn is_bare_ident(s: Seq<char>) -> bool {
    &&& s.len() > 0
    &&& ident_start(s[0])
    &&& forall|i: int| 1 <= i < s.len() ==> ident_rest(#[trigger] s[i])
}

/// An attribute name as it is written in Nix: bare when it is an identifier,
/// otherwise quoted and escaped.
pub open spec fn quoted_key(s: Seq<char>) -> Seq<char> {
    if is_bare_ident(s) {
        s
    } else {
        seq!['"'] + nix_escaped(s) + seq!['"']
    }
}

fn bare_ident(s: &Vec<char>) -> (r: bool)
    ensures
        r == is_bare_ident(s@),
{
    if s.len() == 0 {
        return false;
    }
    let c0 = s[0];
    if !(('a' <= c0 && c0 <= 'z') || ('A' <= c0 && c0 <= 'Z') || c0 == '_') {
        return false;
    }
    let mut i: usize = 1;
    while i < s.len()
        invariant
            1 <= i <= s.len(),
            forall|j: int| 1 <= j < i ==> ident_rest(#[trigger] s@[j]),
        decreases s.len() - i,
    {
        let c = s[i];
        if !(('a' <= c && c <= 'z') || ('A' <= c && c <= 'Z') || c == '_' || ('0' <= c && c <= '9')
            || c == '-') {
            return false;
        }
        i += 1;
    }
    true
}

/// Appends `quoted_key(s)` to `buf`.
fn push_quoted_key(buf: &mut String, s: &Vec<char>)
    ensures
        final(buf)@ == old(buf)@ + quoted_key(s@),
{
    if bare_ident(s) {
        push_chars(buf, s);
    } else {
        push_char(buf, '"');
        push_escaped(buf, s);
        push_char(buf, '"');
        proof {
            assert(final(buf)@ =~= old(buf)@ + quoted_key(s@));
        }
    }
}

/// Quote an attribute key for Nix. Bare identifiers matching
/// [a-zA-Z_][0-9a-zA-Z_-]* are left unquoted; everything else is quoted.
pub fn quote_key(s: &str) -> (out: String)
    ensures
        out@ == quoted_key(s@),
        is_bare_ident(s@) ==> out@ == s@,
        !is_bare_ident(s@) ==> out@ == seq!['"'] + nix_escaped(s@) + seq!['"'],
{
    let v = chars_of(s);
    let mut out = String::new();
    push_quoted_key(&mut out, &v);
    proof {
        assert(out@ =~= quoted_key(s@));
    }
    out
}

// ---------------------------------------------------------------------------
// The Nix text of a JSON document
// ---------------------------------------------------------------------------

/// The lines of a multi-line string, each indented by `level` and escaped for
/// a Nix indented string, each ending in a line feed.
pub open spec fn nix_lines(ls: Seq<Seq<char>>, level: nat) -> Seq<char>
    decreases ls.len(),
{
    if ls.len() == 0 {
        seq![]
    } else {
        nix_lines(ls.drop_last(), level) + indent_text(level) + nix_escaped_indented(ls.last())
            + "\n"@
    }
}

/// A JSON value written as a Nix expression whose closing line is indented by
/// `indent` levels.
pub open spec fn nix_value(v: Json, indent: nat) -> Seq<char>
    decreases v, 0nat,
{
    match v {
        Json::Null => "null"@,
        Json::Bool(b) => if b {
            "true"@
        } else {
            "false"@
        },
        Json::Number(n) => n,
        Json::Str(s) => if s.contains('\n') {
            "''\n"@ + nix_lines(lines_of(s), indent + 1) + indent_text(indent) + "''"@
        } else {
            "\""@ + nix_escaped(s) + "\""@
        },
        Json::Array(items) => if items.len() == 0 {
            "[ ]"@
        } else {
            "[\n"@ + nix_items(items, indent + 1) + indent_text(indent) + "]"@
        },
        Json::Object(entries) => if entries.len() == 0 {
            "{ }"@
        } else {
            "{\n"@ + nix_bindings(entries, indent + 1) + indent_text(indent) + "}"@
        },
    }
}

/// List elements, one per line, indented by `level`.
pub open spec fn nix_items(items: Seq<Json>, level: nat) -> Seq<char>
    decreases items, 0nat,
{
    if items.len() == 0 {
        seq![]
    } else {
        nix_items(items.drop_last(), level) + indent_text(level) + nix_value(items.last(), level)
            + "\n"@
    }
}

/// The bindings of an attribute set, each key written as `quoted_key`.
pub open spec fn nix_bindings(entries: Seq<(Seq<char>, Json)>, indent: nat) -> Seq<char>
    decreases entries, 0nat,
{
    if entries.len() == 0 {
        seq![]
    } else {
        nix_bindings(entries.drop_last(), indent) + nix_binding(
            quoted_key(entries.last().0),
            entries.last().1,
            indent,
        )
    }
}

/// `prefix` followed by a dot and the quoted `key`.
pub open spec fn dotted(prefix: Seq<char>, key: Seq<char>) -> Seq<char> {
    prefix + seq!['.'] + quoted_key(key)
}

/// One binding `prefix = value;`. An attribute set with a single entry is
/// collapsed into the dotted path of its key; one with several entries opens
/// braces.
pub open spec fn nix_binding(prefix: Seq<char>, v: Json, indent: nat) -> Seq<char>
    decreases v, 1nat,
{
    match v {
        Json::Object(entries) => if entries.len() == 1 {
            nix_binding(dotted(prefix, entries[0].0), entries[0].1, indent)
        } else if entries.len() > 1 {
            indent_text(indent) + prefix + " = {\n"@ + nix_bindings(entries, indent + 1)
                + indent_text(indent) + "};\n"@
        } else {
            indent_text(indent) + prefix + " = { };\n"@
        },
        _ => indent_text(indent) + prefix + " = "@ + nix_value(v, indent) + ";\n"@,
    }
}

/// An attribute set with a single entry is written as the binding of its
/// value under the dotted path of its key, so a chain of single entries
/// becomes one binding headed by the whole path.
pub proof fn lemma_single_entry_collapses(prefix: Seq<char>, key: Seq<char>, v: Json, indent: nat)
    ensures
        nix_binding(prefix, Json::Object(seq![(key, v)]), indent) == nix_binding(dotted(prefix, key), v, indent),
{
    let entries = seq![(key, v)];
    assert(entries.len() == 1 && entries[0] == (key, v));
}

/// The key of an entry in flat mode: the full dotted path from the top.
pub open spec fn flat_key(prefix: Seq<char>, key: Seq<char>) -> Seq<char> {
    if prefix.len() == 0 {
        quoted_key(key)
    } else {
        dotted(prefix, key)
    }
}

/// The bindings of an attribute set in flat mode: every leaf is written with
/// its full dotted path and no braces are opened.
pub open spec fn flat_bindings(entries: Seq<(Seq<char>, Json)>, indent: nat, prefix: Seq<char>) -> Seq<char>
    decreases entries, 0nat,
{
    if entries.len() == 0 {
        seq![]
    } else {
        flat_bindings(entries.drop_last(), indent, prefix) + flat_binding(
            flat_key(prefix, entries.last().0),
            entries.last().1,
            indent,
        )
    }
}

/// One binding in flat mode.
pub open spec fn flat_binding(prefix: Seq<char>, v: Json, indent: nat) -> Seq<char>
    decreases v, 1nat,
{
    match v {
        Json::Object(entries) => if entries.len() == 0 {
            indent_text(indent) + prefix + " = { };\n"@
        } else {
            flat_bindings(entries, indent, prefix)
        },
        _ => indent_text(indent) + prefix + " = "@ + nix_value(v, indent) + ";\n"@,
    }
}

/// The whole Nix file for a JSON document, ending in a line feed.
pub open spec fn nix_document(v: Json, flat: bool) -> Seq<char> {
    let body = match v {
        Json::Object(entries) => if entries.len() == 0 {
            "{ }"@
        } else if flat {
            "{\n"@ + flat_bindings(entries, 1, seq![]) + "}"@
        } else {
            "{\n"@ + nix_bindings(entries, 1) + "}"@
        },
        _ => nix_value(v, 0),
    };
    body + "\n"@
}

/// Appends the lines of a multi-line string to `buf`.
fn emit_lines(buf: &mut String, ls: &Vec<String>, level: usize)
    ensures
        final(buf)@ == old(buf)@ + nix_lines(Seq::new(ls@.len(), |i: int| ls@[i]@), level as nat),
{
    let ghost whole = Seq::new(ls@.len(), |i: int| ls@[i]@);
    let mut i: usize = 0;
    while i < ls.len()
        invariant
            i <= ls.len(),
            whole == Seq::new(ls@.len(), |i: int| ls@[i]@),
            buf@ == old(buf)@ + nix_lines(whole.take(i as int), level as nat),
        decreases ls.len() - i,
    {
        write_indent(buf, level);
        let e = nix_escape_indented(ls[i].as_str());
        push_string(buf, &e);
        buf.append("\n");
        proof {
            assert(whole.take(i + 1).drop_last() =~= whole.take(i as int));
            assert(buf@ =~= old(buf)@ + nix_lines(whole.take(i + 1), level as nat));
        }
        i += 1;
    }
    proof {
        assert(whole.take(ls.len() as int) =~= whole);
    }
}

/// Format a JSON value as a Nix expression, appending to buf.
pub fn format_value(buf: &mut String, value: &JsonValue, indent: usize)
    requires
        indent + json_depth(value.model()) < usize::MAX,
    ensures
        final(buf)@ == old(buf)@ + nix_value(value.model(), indent as nat),
    decreases value, 0nat,
{
    match value {
        JsonValue::Null => {
            buf.append("null");
        },
        JsonValue::Bool(b) => {
            if *b {
                buf.append("true");
            } else {
                buf.append("false");
            }
        },
        JsonValue::Number(n) => {
            push_string(buf, n);
        },
        JsonValue::Str(s) => {
            if contains_char(s.as_str(), '\n') {
                buf.append("''\n");
                let ls = lines(s.as_str());
                emit_lines(buf, &ls, indent + 1);
                proof {
                    assert(Seq::new(ls@.len(), |i: int| ls@[i]@) =~= lines_of(s@));
                }
                write_indent(buf, indent);
                buf.append("''");
            } else {
                buf.append("\"");
                let e = nix_escape(s.as_str());
                push_string(buf, &e);
                buf.append("\"");
            }
        },
        JsonValue::Array(items) => {
            proof {
                lemma_array_model(items);
            }
            if items.len() == 0 {
                buf.append("[ ]");
            } else {
                buf.append("[\n");
                emit_items(buf, items, indent + 1);
                write_indent(buf, indent);
                buf.append("]");
            }
        },
        JsonValue::Object(entries) => {
            proof {
                lemma_object_model(entries);
            }
            if entries.len() == 0 {
                buf.append("{ }");
            } else {
                buf.append("{\n");
                emit_bindings(buf, entries, indent + 1);
                write_indent(buf, indent);
                buf.append("}");
            }
        },
    }
    proof {
        assert(final(buf)@ =~= old(buf)@ + nix_value(value.model(), indent as nat));
    }
}

/// Appends the elements of a list, one per line, each indented by `level`.
fn emit_items(buf: &mut String, items: &Vec<JsonValue>, level: usize)
    requires
        level + items_depth(items_model(items@)) < usize::MAX,
    ensures
        final(buf)@ == old(buf)@ + nix_items(items_model(items@), level as nat),
    decreases items, 0nat,
{
    let ghost model = items_model(items@);
    let mut i: usize = 0;
    while i < items.len()
        invariant
            i <= items.len(),
            model == items_model(items@),
            level + items_depth(model) < usize::MAX,
            buf@ == old(buf)@ + nix_items(model.take(i as int), level as nat),
        decreases items.len() - i,
    {
        proof {
            lemma_items_depth(model, i as int);
        }
        write_indent(buf, level);
        format_value(buf, &items[i], level);
        buf.append("\n");
        proof {
            assert(model.take(i + 1).drop_last() =~= model.take(i as int));
            assert(buf@ =~= old(buf)@ + nix_items(model.take(i + 1), level as nat));
        }
        i += 1;
    }
    proof {
        assert(model.take(items.len() as int) =~= model);
    }
}

/// Emit bindings for all entries in a JSON object at the given indentation level.
pub fn emit_bindings(buf: &mut String, entries: &Vec<(String, JsonValue)>, indent: usize)
    requires
        indent + entries_depth(entries_model(entries@)) < usize::MAX,
    ensures
        final(buf)@ == old(buf)@ + nix_bindings(entries_model(entries@), indent as nat),
    decreases entries, 0nat,
{
    let ghost model = entries_model(entries@);
    let mut i: usize = 0;
    while i < entries.len()
        invariant
            i <= entries.len(),
            model == entries_model(entries@),
            indent + entries_depth(model) < usize::MAX,
            buf@ == old(buf)@ + nix_bindings(model.take(i as int), indent as nat),
        decreases entries.len() - i,
    {
        proof {
            lemma_entries_depth(model, i as int);
        }
        let key = quote_key(entries[i].0.as_str());
        emit_binding(buf, &key, &entries[i].1, indent);
        proof {
            assert(model.take(i + 1).drop_last() =~= model.take(i as int));
            assert(buf@ =~= old(buf)@ + nix_bindings(model.take(i + 1), indent as nat));
        }
        i += 1;
    }
    proof {
        assert(model.take(entries.len() as int) =~= model);
    }
}

/// A new string `prefix.key` with the key quoted.
fn dotted_key(prefix: &String, key: &String) -> (out: String)
    ensures
        out@ == dotted(prefix@, key@),
{
    let mut out = copy_string(prefix);
    push_char(&mut out, '.');
    let q = quote_key(key.as_str());
    push_string(&mut out, &q);
    out
}

/// Emit a single binding, collapsing single-key objects into dot notation
/// until hitting a multi-key object or leaf value.
pub fn emit_binding(buf: &mut String, prefix: &String, value: &JsonValue, indent: usize)
    requires
        indent + json_depth(value.model()) < usize::MAX,
    ensures
        final(buf)@ == old(buf)@ + nix_binding(prefix@, value.model(), indent as nat),
    decreases value, 1nat,
{
    match value {
        JsonValue::Object(entries) => {
            proof {
                lemma_object_model(entries);
            }
            let ghost model = entries_model(entries@);
            if entries.len() == 1 {
                proof {
                    lemma_entries_depth(model, 0);
                }
                let key = dotted_key(prefix, &entries[0].0);
                emit_binding(buf, &key, &entries[0].1, indent);
            } else if entries.len() > 1 {
                write_indent(buf, indent);
                push_string(buf, prefix);
                buf.append(" = {\n");
                emit_bindings(buf, entries, indent + 1);
                write_indent(buf, indent);
                buf.append("};\n");
            } else {
                write_indent(buf, indent);
                push_string(buf, prefix);
                buf.append(" = { };\n");
            }
        },
        _ => {
            write_indent(buf, indent);
            push_string(buf, prefix);
            buf.append(" = ");
            format_value(buf, value, indent);
            buf.append(";\n");
        },
    }
    proof {
        assert(final(buf)@ =~= old(buf)@ + nix_binding(prefix@, value.model(), indent as nat));
    }
}

/// Emit bindings in flat mode — all keys use fully-qualified dot paths, no braces.
pub fn emit_bindings_flat(buf: &mut String, entries: &Vec<(String, JsonValue)>, indent: usize, prefix: &String)
    requires
        indent + entries_depth(entries_model(entries@)) < usize::MAX,
    ensures
        final(buf)@ == old(buf)@ + flat_bindings(entries_model(entries@), indent as nat, prefix@),
    decreases entries, 0nat,
{
    let ghost model = entries_model(entries@);
    let mut i: usize = 0;
    while i < entries.len()
        invariant
            i <= entries.len(),
            model == entries_model(entries@),
            indent + entries_depth(model) < usize::MAX,
            buf@ == old(buf)@ + flat_bindings(model.take(i as int), indent as nat, prefix@),
        decreases entries.len() - i,
    {
        proof {
            lemma_entries_depth(model, i as int);
        }
        let key = if prefix.as_str().unicode_len() == 0 {
            quote_key(entries[i].0.as_str())
        } else {
            dotted_key(prefix, &entries[i].0)
        };
        emit_binding_flat(buf, &key, &entries[i].1, indent);
        proof {
            assert(model.take(i + 1).drop_last() =~= model.take(i as int));
            assert(buf@ =~= old(buf)@ + flat_bindings(model.take(i + 1), indent as nat, prefix@));
        }
        i += 1;
    }
    proof {
        assert(model.take(entries.len() as int) =~= model);
    }
}

/// Emit a single flat binding — recurse into objects accumulating dot-prefix,
/// only emit `key = value;` at leaf values.
pub fn emit_binding_flat(buf: &mut String, prefix: &String, value: &JsonValue, indent: usize)
    requires
        indent + json_depth(value.model()) < usize::MAX,
    ensures
        final(buf)@ == old(buf)@ + flat_binding(prefix@, value.model(), indent as nat),
    decreases value, 1nat,
{
    match value {
        JsonValue::Object(entries) => {
            proof {
                lemma_object_model(entries);
            }
            if entries.len() == 0 {
                write_indent(buf, indent);
                push_string(buf, prefix);
                buf.append(" = { };\n");
            } else {
                emit_bindings_flat(buf, entries, indent, prefix);
            }
        },
        _ => {
            write_indent(buf, indent);
            push_string(buf, prefix);
            buf.append(" = ");
            format_value(buf, value, indent);
            buf.append(";\n");
        },
    }
    proof {
        assert(final(buf)@ =~= old(buf)@ + flat_binding(prefix@, value.model(), indent as nat));
    }
}

/// Convert a JSON value to Nix syntax with proper indentation.
///
/// When `flat` is true, all bindings are emitted with fully-qualified dot paths
/// (no `= { ... };` braces), which is ideal for diffs where every line should
/// show the complete path.
pub fn convert(value: &JsonValue, flat: bool) -> (out: String)
    requires
        json_depth(value.model()) < usize::MAX,
    ensures
        out@ == nix_document(value.model(), flat),
{
    let mut buf = String::new();
    match value {
        JsonValue::Object(entries) => {
            proof {
                lemma_object_model(entries);
            }
            if entries.len() == 0 {
                buf.append("{ }");
            } else if flat {
                buf.append("{\n");
                let empty = String::new();
                emit_bindings_flat(&mut buf, entries, 1, &empty);
                buf.append("}");
            } else {
                buf.append("{\n");
                emit_bindings(&mut buf, entries, 1);
                buf.append("}");
            }
        },
        _ => {
            format_value(&mut buf, value, 0);
        },
    }
    buf.append("\n");
    proof {
        assert(buf@ =~= nix_document(value.model(), flat));
    }
    buf
}

// ---------------------------------------------------------------------------
// Flat mode writes one line per leaf
// ---------------------------------------------------------------------------

/// The leaves below the entries of a set, each with its full dotted path,
/// in the order of the document: a leaf is a value that is not a set, or an
/// empty set.
pub open spec fn flat_leaves(entries: Seq<(Seq<char>, Json)>, prefix: Seq<char>) -> Seq<(Seq<char>, Json)>
    decreases entries, 0nat,
{
    if entries.len() == 0 {
        seq![]
    } else {
        flat_leaves(entries.drop_last(), prefix) + leaves_of(flat_key(prefix, entries.last().0), entries.last().1)
    }
}

/// The leaves of a value whose path is `path`: itself, or those below it
/// when it is a non-empty set.
pub open spec fn leaves_of(path: Seq<char>, v: Json) -> Seq<(Seq<char>, Json)>
    decreases v, 1nat,
{
    match v {
        Json::Object(entries) => if entries.len() == 0 {
            seq![(path, v)]
        } else {
            flat_leaves(entries, path)
        },
        _ => seq![(path, v)],
    }
}

/// The line that binds a leaf: its full path, ` = `, and its value (an
/// empty set for a set).
pub open spec fn leaf_line(indent: nat, path: Seq<char>, v: Json) -> Seq<char> {
    match v {
        Json::Object(_) => indent_text(indent) + path + " = { };\n"@,
        _ => indent_text(indent) + path + " = "@ + nix_value(v, indent) + ";\n"@,
    }
}

/// The lines that bind the leaves, in order.
pub open spec fn leaf_lines(ls: Seq<(Seq<char>, Json)>, indent: nat) -> Seq<char>
    decreases ls.len(),
{
    if ls.len() == 0 {
        seq![]
    } else {
        leaf_lines(ls.drop_last(), indent) + leaf_line(indent, ls.last().0, ls.last().1)
    }
}

proof fn lemma_leaf_lines_append(a: Seq<(Seq<char>, Json)>, b: Seq<(Seq<char>, Json)>, indent: nat)
    ensures
        leaf_lines(a + b, indent) == leaf_lines(a, indent) + leaf_lines(b, indent),
    decreases b.len(),
{
    if b.len() == 0 {
        assert(a + b =~= a);
    } else {
        lemma_leaf_lines_append(a, b.drop_last(), indent);
        assert((a + b).drop_last() =~= a + b.drop_last());
    }
}

proof fn lemma_flat_bindings_leaves(entries: Seq<(Seq<char>, Json)>, indent: nat, prefix: Seq<char>)
    ensures
        flat_bindings(entries, indent, prefix) == leaf_lines(flat_leaves(entries, prefix), indent),
        forall|k: int|
            0 <= k < flat_leaves(entries, prefix).len() ==> !(#[trigger] flat_leaves(entries, prefix)[k].1 matches Json::Object(e)
                && e.len() > 0),
    decreases entries, 0nat,
{
    if entries.len() > 0 {
        let last = entries.last();
        lemma_flat_bindings_leaves(entries.drop_last(), indent, prefix);
        lemma_flat_binding_leaves(flat_key(prefix, last.0), last.1, indent);
        lemma_leaf_lines_append(flat_leaves(entries.drop_last(), prefix), leaves_of(flat_key(prefix, last.0), last.1), indent);
        let a = flat_leaves(entries.drop_last(), prefix);
        let b = leaves_of(flat_key(prefix, last.0), last.1);
        assert forall|k: int|
            0 <= k < flat_leaves(entries, prefix).len() implies !(#[trigger] flat_leaves(entries, prefix)[k].1 matches Json::Object(
            e,
        ) && e.len() > 0) by {
            if k < a.len() {
                assert(flat_leaves(entries, prefix)[k] == a[k]);
            } else {
                assert(flat_leaves(entries, prefix)[k] == b[k - a.len()]);
            }
        }
    }
}

proof fn lemma_flat_binding_leaves(path: Seq<char>, v: Json, indent: nat)
    ensures
        flat_binding(path, v, indent) == leaf_lines(leaves_of(path, v), indent),
        forall|k: int|
            0 <= k < leaves_of(path, v).len() ==> !(#[trigger] leaves_of(path, v)[k].1 matches Json::Object(e) && e.len() > 0),
    decreases v, 1nat,
{
    match v {
        Json::Object(entries) => {
            if entries.len() == 0 {
                assert(seq![(path, v)].drop_last() =~= Seq::<(Seq<char>, Json)>::empty());
                assert(leaf_lines(seq![(path, v)], indent) == leaf_lines(Seq::<(Seq<char>, Json)>::empty(), indent) + leaf_line(
                    indent,
                    path,
                    v,
                ));
                assert(Seq::<char>::empty() + leaf_line(indent, path, v) =~= leaf_line(indent, path, v));
            } else {
                lemma_flat_bindings_leaves(entries, indent, path);
            }
        },
        _ => {
            assert(seq![(path, v)].drop_last() =~= Seq::<(Seq<char>, Json)>::empty());
            assert(leaf_lines(seq![(path, v)], indent) == leaf_lines(Seq::<(Seq<char>, Json)>::empty(), indent) + leaf_line(
                indent,
                path,
                v,
            ));
            assert(Seq::<char>::empty() + leaf_line(indent, path, v) =~= leaf_line(indent, path, v));
        },
    }
}

/// In flat mode a non-empty set is written as one line per leaf below it,
/// all at the first indentation and each with the leaf's full dotted path;
/// no binding opens a set of its own (`= {` appears only as the `{ }` of an
/// empty set).
pub proof fn lemma_flat_one_line_per_leaf(entries: Seq<(Seq<char>, Json)>)
    requires
        entries.len() > 0,
    ensures
        nix_document(Json::Object(entries), true) == "{\n"@ + leaf_lines(flat_leaves(entries, seq![]), 1) + "}"@ + "\n"@,
        forall|k: int|
            0 <= k < flat_leaves(entries, seq![]).len() ==> !(#[trigger] flat_leaves(entries, seq![])[k].1 matches Json::Object(
                e,
            ) && e.len() > 0),
{
    lemma_flat_bindings_leaves(entries, 1, seq![]);
    assert(flat_bindings(entries, 1, seq![]) == leaf_lines(flat_leaves(entries, seq![]), 1));
}

/// The leaves below the entries, each with the names on its way from the
/// top (`path` and below) and its value: a value other than a non-empty set
/// is a leaf.
pub open spec fn named_leaves(entries: Seq<(Seq<char>, Json)>, path: Seq<Seq<char>>) -> Seq<(Seq<Seq<char>>, Json)>
    decreases entries, 0nat,
{
    if entries.len() == 0 {
        seq![]
    } else {
        named_leaves(entries.drop_last(), path) + named_value_leaves(path.push(entries.last().0), entries.last().1)
    }
}

pub open spec fn named_value_leaves(path: Seq<Seq<char>>, v: Json) -> Seq<(Seq<Seq<char>>, Json)>
    decreases v, 1nat,
{
    match v {
        Json::Object(entries) => if entries.len() == 0 {
            seq![(path, v)]
        } else {
            named_leaves(entries, path)
        },
        _ => seq![(path, v)],
    }
}

/// The names of a path, each written as a Nix attribute name, joined by dots.
pub open spec fn quoted_path(names: Seq<Seq<char>>) -> Seq<char>
    decreases names.len(),
{
    if names.len() == 0 {
        seq![]
    } else if names.len() == 1 {
        quoted_key(names[0])
    } else {
        quoted_path(names.drop_last()) + seq!['.'] + quoted_key(names.last())
    }
}

/// Each leaf keyed by its quoted path.
pub open spec fn keyed_leaves(ls: Seq<(Seq<Seq<char>>, Json)>) -> Seq<(Seq<char>, Json)> {
    Seq::new(ls.len(), |i: int| (quoted_path(ls[i].0), ls[i].1))
}

proof fn lemma_keyed_append(a: Seq<(Seq<Seq<char>>, Json)>, b: Seq<(Seq<Seq<char>>, Json)>)
    ensures
        keyed_leaves(a + b) == keyed_leaves(a) + keyed_leaves(b),
{
    assert(keyed_leaves(a + b) =~= keyed_leaves(a) + keyed_leaves(b));
}

proof fn lemma_quoted_path_push(names: Seq<Seq<char>>, key: Seq<char>)
    ensures
        quoted_path(names.push(key)) == flat_key_of(quoted_path(names), key),
        quoted_path(names.push(key)).len() > 0,
{
    assert(names.push(key).drop_last() =~= names);
    if names.len() > 0 {
        lemma_quoted_path_nonempty(names);
    }
    assert(names.push(key).len() == 1 ==> names.push(key)[0] == key);
}

proof fn lemma_quoted_path_nonempty(names: Seq<Seq<char>>)
    requires
        names.len() > 0,
    ensures
        quoted_path(names).len() > 0,
    decreases names.len(),
{
    if names.len() == 1 {
        lemma_quoted_key_nonempty(names[0]);
    } else {
        lemma_quoted_path_nonempty(names.drop_last());
    }
}

proof fn lemma_quoted_key_nonempty(k: Seq<char>)
    ensures
        quoted_key(k).len() > 0,
{
}

/// The path of a key below `prefix` in flat mode, as the leaves of the law
/// below expect it: the key alone at the top, the prefix, a dot and the key
/// below it.
spec fn flat_key_of(prefix: Seq<char>, key: Seq<char>) -> Seq<char> {
    if prefix.len() == 0 {
        quoted_key(key)
    } else {
        prefix + seq!['.'] + quoted_key(key)
    }
}

proof fn lemma_named_leaves(entries: Seq<(Seq<char>, Json)>, path: Seq<Seq<char>>)
    ensures
        flat_leaves(entries, quoted_path(path)) == keyed_leaves(named_leaves(entries, path)),
    decreases entries, 0nat,
{
    if entries.len() > 0 {
        let last = entries.last();
        lemma_named_leaves(entries.drop_last(), path);
        lemma_quoted_path_push(path, last.0);
        if path.len() > 0 {
            lemma_quoted_path_nonempty(path);
        }
        assert(flat_key(quoted_path(path), last.0) == quoted_path(path.push(last.0)));
        lemma_named_value_leaves(path.push(last.0), last.1);
        lemma_keyed_append(named_leaves(entries.drop_last(), path), named_value_leaves(path.push(last.0), last.1));
    } else {
        assert(keyed_leaves(Seq::empty()) =~= Seq::<(Seq<char>, Json)>::empty());
    }
}

proof fn lemma_named_value_leaves(path: Seq<Seq<char>>, v: Json)
    ensures
        leaves_of(quoted_path(path), v) == keyed_leaves(named_value_leaves(path, v)),
    decreases v, 1nat,
{
    match v {
        Json::Object(entries) => {
            if entries.len() == 0 {
                assert(keyed_leaves(seq![(path, v)]) =~= seq![(quoted_path(path), v)]);
            } else {
                lemma_named_leaves(entries, path);
            }
        },
        _ => {
            assert(keyed_leaves(seq![(path, v)]) =~= seq![(quoted_path(path), v)]);
        },
    }
}

/// In flat mode the document is one line per leaf, in order, each keyed by
/// the names on the leaf's way from the top, every one of them written as a
/// Nix attribute name (quoted where it is not an identifier) and joined by
/// dots.
pub proof fn lemma_flat_keys_quote_every_name(entries: Seq<(Seq<char>, Json)>)
    requires
        entries.len() > 0,
    ensures
        nix_document(Json::Object(entries), true) == "{\n"@ + leaf_lines(keyed_leaves(named_leaves(entries, seq![])), 1)
            + "}"@ + "\n"@,
{
    lemma_flat_one_line_per_leaf(entries);
    lemma_named_leaves(entries, seq![]);
    assert(quoted_path(Seq::<Seq<char>>::empty()) == Seq::<char>::empty());
}

} // verus!
