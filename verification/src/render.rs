use vstd::prelude::*;
use vstd::string::{StrSliceExecFns, StringExecFns};
use crate::error::{
    ArrayErrors, ArrayModel, Error, ErrorModel, Errors, ErrorsModel, FormatModel, MessageFormat,
    ObjectErrors, ObjectModel, errors_model, error_model, errors_list_model, items_model,
    props_model, lemma_errors_list_model, lemma_items_model, lemma_props_model,
    lemma_numbers_model, numbers_model,
};
use crate::number::{spec_decimal, decimal_digits};

verus! {

broadcast use vstd::std_specs::vec::group_vec_axioms, vstd::seq::axiom_seq_index_decreases;

// ---------------------------------------------------------------------------
// Final message text, per leaf kind
// ---------------------------------------------------------------------------

/// The chosen format applied to a leaf's default text.
pub open spec fn formatted(f: FormatModel, default: Seq<char>) -> Seq<char> {
    match f {
        FormatModel::Default => default,
        FormatModel::Literal(s) => s,
    }
}

/// The numbers of an enumeration, joined with a comma and a space.
pub open spec fn join_numbers(values: Seq<int>) -> Seq<char>
    decreases values,
{
    if values.len() == 0 {
        Seq::empty()
    } else if values.len() == 1 {
        spec_decimal(values[0])
    } else {
        spec_decimal(values[0]) + ", "@ + join_numbers(values.drop_first())
    }
}

/// The display text of one error: the leaf kinds render their default
/// template (or the custom literal chosen for the constraint), a nested
/// report renders as its serialized tree.
pub open spec fn message_of(e: ErrorModel) -> Seq<char>
    decreases e,
{
    match e {
        ErrorModel::Minimum { limit, format } => formatted(
            format,
            "The number must be `>= "@ + spec_decimal(limit) + "`."@,
        ),
        ErrorModel::Maximum { limit, format } => formatted(
            format,
            "The number must be `<= "@ + spec_decimal(limit) + "`."@,
        ),
        ErrorModel::ExclusiveMinimum { limit, format } => formatted(
            format,
            "The number must be `> "@ + spec_decimal(limit) + "`."@,
        ),
        ErrorModel::ExclusiveMaximum { limit, format } => formatted(
            format,
            "The number must be `< "@ + spec_decimal(limit) + "`."@,
        ),
        ErrorModel::MultipleOf { limit, format } => formatted(
            format,
            "The value must be multiple of `"@ + spec_decimal(limit) + "`."@,
        ),
        ErrorModel::MaxLength { limit, format } => formatted(
            format,
            "The length of the value must be `<= "@ + spec_decimal(limit) + "`."@,
        ),
        ErrorModel::MinLength { limit, format } => formatted(
            format,
            "The length of the value must be `>= "@ + spec_decimal(limit) + "`."@,
        ),
        ErrorModel::MaxItems { limit, format } => formatted(
            format,
            "The length of the items must be `<= "@ + spec_decimal(limit) + "`."@,
        ),
        ErrorModel::MinItems { limit, format } => formatted(
            format,
            "The length of the items must be `>= "@ + spec_decimal(limit) + "`."@,
        ),
        ErrorModel::MaxProperties { limit, format } => formatted(
            format,
            "The size of the properties must be `<= "@ + spec_decimal(limit) + "`."@,
        ),
        ErrorModel::MinProperties { limit, format } => formatted(
            format,
            "The size of the properties must be `>= "@ + spec_decimal(limit) + "`."@,
        ),
        ErrorModel::Pattern { pattern, format } => formatted(
            format,
            "The value must match the pattern of \""@ + pattern + "\"."@,
        ),
        ErrorModel::Enumerate { values, format } => formatted(
            format,
            "The value must be in ["@ + join_numbers(values) + "]."@,
        ),
        ErrorModel::Custom { message } => message,
        ErrorModel::Items { sub } => json_of_array(sub),
        ErrorModel::Properties { sub } => json_of_object(sub),
    }
}

// ---------------------------------------------------------------------------
// The canonical serialized form
// ---------------------------------------------------------------------------

/// How one character appears inside a serialized string.
pub open spec fn escape_char(c: char) -> Seq<char> {
    if c == '"' {
        seq!['\\', '"']
    } else if c == '\\' {
        seq!['\\', '\\']
    } else if c == '\u{8}' {
        seq!['\\', 'b']
    } else if c == '\t' {
        seq!['\\', 't']
    } else if c == '\n' {
        seq!['\\', 'n']
    } else if c == '\u{c}' {
        seq!['\\', 'f']
    } else if c == '\r' {
        seq!['\\', 'r']
    } else if (c as u32) < 32 {
        seq!['\\', 'u', '0', '0', hex_char((c as u32 / 16) as nat), hex_char(
            (c as u32 % 16) as nat,
        )]
    } else {
        seq![c]
    }
}

/// One lower-case hexadecimal digit.
pub open spec fn hex_char(d: nat) -> char {
    if d < 10 {
        ((48 + d) as u8) as char
    } else {
        ((87 + d) as u8) as char
    }
}

/// A string's characters, escaped for a serialized string.
pub open spec fn json_escape(s: Seq<char>) -> Seq<char>
    decreases s.len(),
{
    if s.len() == 0 {
        Seq::empty()
    } else {
        escape_char(s[0]) + json_escape(s.drop_first())
    }
}

/// The text in double quotes, escaped.
pub open spec fn quoted(s: Seq<char>) -> Seq<char> {
    seq!['"'] + json_escape(s) + seq!['"']
}

/// The serialized tree: always an `errors` list; a `properties` object for
/// a name-keyed node, an `items` object for an index-keyed node, neither
/// for a flat node.
pub open spec fn json_of(t: ErrorsModel) -> Seq<char>
    decreases t,
{
    match t {
        ErrorsModel::Flat(l) => "{\"errors\":["@ + json_error_list(l) + "]}"@,
        ErrorsModel::Object(o) => json_of_object(o),
        ErrorsModel::Array(a) => json_of_array(a),
    }
}

pub open spec fn json_of_object(o: ObjectModel) -> Seq<char>
    decreases o,
{
    "{\"errors\":["@ + json_error_list(o.errors) + "],\"properties\":{"@ + json_prop_entries(
        o.properties,
    ) + "}}"@
}

pub open spec fn json_of_array(a: ArrayModel) -> Seq<char>
    decreases a,
{
    "{\"errors\":["@ + json_error_list(a.errors) + "],\"items\":{"@ + json_item_entries(a.items)
        + "}}"@
}

pub open spec fn json_error_list(s: Seq<ErrorModel>) -> Seq<char>
    decreases s,
{
    if s.len() == 0 {
        Seq::empty()
    } else if s.len() == 1 {
        quoted(message_of(s[0]))
    } else {
        quoted(message_of(s[0])) + seq![','] + json_error_list(s.drop_first())
    }
}

pub open spec fn json_prop_entries(s: Seq<(Seq<char>, ErrorsModel)>) -> Seq<char>
    decreases s,
{
    if s.len() == 0 {
        Seq::empty()
    } else if s.len() == 1 {
        quoted(s[0].0) + seq![':'] + json_of(s[0].1)
    } else {
        quoted(s[0].0) + seq![':'] + json_of(s[0].1) + seq![','] + json_prop_entries(
            s.drop_first(),
        )
    }
}

pub open spec fn json_item_entries(s: Seq<(int, ErrorsModel)>) -> Seq<char>
    decreases s,
{
    if s.len() == 0 {
        Seq::empty()
    } else if s.len() == 1 {
        seq!['"'] + spec_decimal(s[0].0) + seq!['"', ':'] + json_of(s[0].1)
    } else {
        seq!['"'] + spec_decimal(s[0].0) + seq!['"', ':'] + json_of(s[0].1) + seq![',']
            + json_item_entries(s.drop_first())
    }
}

// ---------------------------------------------------------------------------
// Snoc characterizations, for the loops below
// ---------------------------------------------------------------------------

proof fn lemma_json_escape_push(s: Seq<char>, c: char)
    ensures
        json_escape(s.push(c)) =~= json_escape(s) + escape_char(c),
    decreases s.len(),
{
    if s.len() == 0 {
        assert(s.push(c).drop_first() =~= Seq::<char>::empty());
        assert(s.push(c)[0] == c);
        assert(json_escape(s.push(c)) == escape_char(c) + json_escape(s.push(c).drop_first()));
        assert(json_escape(s.push(c).drop_first()) =~= Seq::<char>::empty());
        assert(json_escape(s) =~= Seq::<char>::empty());
        assert(json_escape(s.push(c)) =~= json_escape(s) + escape_char(c));
    } else {
        lemma_json_escape_push(s.drop_first(), c);
        assert(s.push(c).drop_first() =~= s.drop_first().push(c));
        assert(s.push(c)[0] == s[0]);
        let h = escape_char(s[0]);
        let t = json_escape(s.drop_first());
        let m = escape_char(c);
        assert(json_escape(s.push(c)) == h + json_escape(s.drop_first().push(c)));
        assert(json_escape(s.push(c)) =~= h + (t + m));
        assert(json_escape(s) == h + t);
        assert(h + (t + m) =~= (h + t) + m);
        assert(json_escape(s.push(c)) =~= json_escape(s) + m);
    }
}

proof fn lemma_json_error_list_push(s: Seq<ErrorModel>, e: ErrorModel)
    ensures
        json_error_list(s.push(e)) =~= if s.len() == 0 {
            quoted(message_of(e))
        } else {
            json_error_list(s) + seq![','] + quoted(message_of(e))
        },
    decreases s.len(),
{
    if s.len() == 0 {
        assert(s.push(e)[0] == e);
    } else {
        lemma_json_error_list_push(s.drop_first(), e);
        assert(s.push(e).drop_first() =~= s.drop_first().push(e));
        assert(s.push(e)[0] == s[0]);
        let h = quoted(message_of(s[0]));
        assert(s.push(e).len() >= 2);
        assert(json_error_list(s.push(e)) == h + seq![','] + json_error_list(
            s.drop_first().push(e),
        ));
        if s.len() == 1 {
            assert(json_error_list(s.drop_first().push(e)) =~= quoted(message_of(e)));
            assert(json_error_list(s) =~= h);
            assert(json_error_list(s.push(e)) =~= json_error_list(s) + seq![','] + quoted(
                message_of(e),
            ));
        } else {
            let t = json_error_list(s.drop_first());
            assert(json_error_list(s.drop_first().push(e)) =~= t + seq![','] + quoted(
                message_of(e),
            ));
            assert(json_error_list(s) == h + seq![','] + t);
            assert(json_error_list(s.push(e)) =~= json_error_list(s) + seq![','] + quoted(
                message_of(e),
            ));
        }
    }
}

proof fn lemma_json_prop_entries_push(s: Seq<(Seq<char>, ErrorsModel)>, p: (Seq<char>, ErrorsModel))
    ensures
        json_prop_entries(s.push(p)) =~= if s.len() == 0 {
            quoted(p.0) + seq![':'] + json_of(p.1)
        } else {
            json_prop_entries(s) + seq![','] + (quoted(p.0) + seq![':'] + json_of(p.1))
        },
    decreases s.len(),
{
    if s.len() == 0 {
        assert(s.push(p)[0] == p);
    } else {
        lemma_json_prop_entries_push(s.drop_first(), p);
        assert(s.push(p).drop_first() =~= s.drop_first().push(p));
        assert(s.push(p)[0] == s[0]);
        let h = quoted(s[0].0) + seq![':'] + json_of(s[0].1);
        let e = quoted(p.0) + seq![':'] + json_of(p.1);
        assert(s.push(p).len() >= 2);
        assert(json_prop_entries(s.push(p)) == quoted(s.push(p)[0].0) + seq![':'] + json_of(
            s.push(p)[0].1,
        ) + seq![','] + json_prop_entries(s.drop_first().push(p)));
        if s.len() == 1 {
            assert(json_prop_entries(s.drop_first().push(p)) =~= e);
            assert(json_prop_entries(s) =~= h);
            assert(json_prop_entries(s.push(p)) =~= json_prop_entries(s) + seq![','] + e);
        } else {
            let t = json_prop_entries(s.drop_first());
            assert(json_prop_entries(s.drop_first().push(p)) =~= t + seq![','] + e);
            assert(json_prop_entries(s) == h + seq![','] + t);
            assert(json_prop_entries(s.push(p)) =~= json_prop_entries(s) + seq![','] + e);
        }
    }
}

proof fn lemma_json_item_entries_push(s: Seq<(int, ErrorsModel)>, p: (int, ErrorsModel))
    ensures
        json_item_entries(s.push(p)) =~= if s.len() == 0 {
            seq!['"'] + spec_decimal(p.0) + seq!['"', ':'] + json_of(p.1)
        } else {
            json_item_entries(s) + seq![','] + (seq!['"'] + spec_decimal(p.0) + seq!['"', ':']
                + json_of(p.1))
        },
    decreases s.len(),
{
    if s.len() == 0 {
        assert(s.push(p)[0] == p);
    } else {
        lemma_json_item_entries_push(s.drop_first(), p);
        assert(s.push(p).drop_first() =~= s.drop_first().push(p));
        assert(s.push(p)[0] == s[0]);
        let h = seq!['"'] + spec_decimal(s[0].0) + seq!['"', ':'] + json_of(s[0].1);
        let e = seq!['"'] + spec_decimal(p.0) + seq!['"', ':'] + json_of(p.1);
        assert(s.push(p).len() >= 2);
        assert(json_item_entries(s.push(p)) == seq!['"'] + spec_decimal(s.push(p)[0].0) + seq![
            '"',
            ':',
        ] + json_of(s.push(p)[0].1) + seq![','] + json_item_entries(s.drop_first().push(p)));
        if s.len() == 1 {
            assert(json_item_entries(s.drop_first().push(p)) =~= e);
            assert(json_item_entries(s) =~= h);
            assert(json_item_entries(s.push(p)) =~= json_item_entries(s) + seq![','] + e);
        } else {
            let t = json_item_entries(s.drop_first());
            assert(json_item_entries(s.drop_first().push(p)) =~= t + seq![','] + e);
            assert(json_item_entries(s) == h + seq![','] + t);
            assert(json_item_entries(s.push(p)) =~= json_item_entries(s) + seq![','] + e);
        }
    }
}

proof fn lemma_join_numbers_push(s: Seq<int>, v: int)
    ensures
        join_numbers(s.push(v)) =~= if s.len() == 0 {
            spec_decimal(v)
        } else {
            join_numbers(s) + ", "@ + spec_decimal(v)
        },
    decreases s.len(),
{
    if s.len() == 0 {
        assert(s.push(v)[0] == v);
    } else {
        lemma_join_numbers_push(s.drop_first(), v);
        assert(s.push(v).drop_first() =~= s.drop_first().push(v));
        assert(s.push(v)[0] == s[0]);
        let h = spec_decimal(s[0]);
        assert(s.push(v).len() >= 2);
        assert(join_numbers(s.push(v)) == h + ", "@ + join_numbers(s.drop_first().push(v)));
        if s.len() == 1 {
            assert(join_numbers(s.drop_first().push(v)) =~= spec_decimal(v));
            assert(join_numbers(s) =~= h);
            assert(join_numbers(s.push(v)) =~= join_numbers(s) + ", "@ + spec_decimal(v));
        } else {
            let t = join_numbers(s.drop_first());
            assert(join_numbers(s.drop_first().push(v)) =~= t + ", "@ + spec_decimal(v));
            assert(join_numbers(s) == h + ", "@ + t);
            assert(join_numbers(s.push(v)) =~= join_numbers(s) + ", "@ + spec_decimal(v));
        }
    }
}

// ---------------------------------------------------------------------------
// Executable rendering
// ---------------------------------------------------------------------------

/// One lower-case hexadecimal digit as text.
fn hex_str(d: u32) -> (s: &'static str)
    requires
        d < 16,
    ensures
        s@ =~= seq![hex_char(d as nat)],
{
    proof {
        reveal_strlit("0");
        reveal_strlit("1");
        reveal_strlit("2");
        reveal_strlit("3");
        reveal_strlit("4");
        reveal_strlit("5");
        reveal_strlit("6");
        reveal_strlit("7");
        reveal_strlit("8");
        reveal_strlit("9");
        reveal_strlit("a");
        reveal_strlit("b");
        reveal_strlit("c");
        reveal_strlit("d");
        reveal_strlit("e");
        reveal_strlit("f");
    }
    match d {
        0 => "0",
        1 => "1",
        2 => "2",
        3 => "3",
        4 => "4",
        5 => "5",
        6 => "6",
        7 => "7",
        8 => "8",
        9 => "9",
        10 => "a",
        11 => "b",
        12 => "c",
        13 => "d",
        14 => "e",
        _ => "f",
    }
}

/// Appends the text, escaped for a serialized string.
fn escape_into(s: &str, out: &mut String)
    ensures
        final(out)@ == old(out)@ + json_escape(s@),
{
    let ghost orig = out@;
    let n = s.unicode_len();
    let mut i: usize = 0;
    proof {
        assert(s@.subrange(0, 0) =~= Seq::<char>::empty());
        assert(out@ =~= orig + json_escape(s@.subrange(0, 0)));
    }
    while i < n
        invariant
            i <= n,
            n == s@.len(),
            out@ =~= orig + json_escape(s@.subrange(0, i as int)),
        decreases n - i,
    {
        let c = s.get_char(i);
        let ghost prefix = s@.subrange(0, i as int);
        proof {
            lemma_json_escape_push(prefix, c);
            assert(s@.subrange(0, i as int + 1) =~= prefix.push(c));
        }
        if c == '"' {
            out.append("\\\"");
            proof {
                reveal_strlit("\\\"");
                assert("\\\""@ =~= escape_char(c));
            }
        } else if c == '\\' {
            out.append("\\\\");
            proof {
                reveal_strlit("\\\\");
                assert("\\\\"@ =~= escape_char(c));
            }
        } else if c == '\u{8}' {
            out.append("\\b");
            proof {
                reveal_strlit("\\b");
                assert("\\b"@ =~= escape_char(c));
            }
        } else if c == '\t' {
            out.append("\\t");
            proof {
                reveal_strlit("\\t");
                assert("\\t"@ =~= escape_char(c));
            }
        } else if c == '\n' {
            out.append("\\n");
            proof {
                reveal_strlit("\\n");
                assert("\\n"@ =~= escape_char(c));
            }
        } else if c == '\u{c}' {
            out.append("\\f");
            proof {
                reveal_strlit("\\f");
                assert("\\f"@ =~= escape_char(c));
            }
        } else if c == '\r' {
            out.append("\\r");
            proof {
                reveal_strlit("\\r");
                assert("\\r"@ =~= escape_char(c));
            }
        } else if (c as u32) < 32 {
            let code = c as u32;
            let h1 = hex_str(code / 16);
            let h2 = hex_str(code % 16);
            out.append("\\u00");
            out.append(h1);
            out.append(h2);
            proof {
                reveal_strlit("\\u00");
                assert("\\u00"@ + h1@ + h2@ =~= escape_char(c));
            }
        } else {
            let piece = s.substring_char(i, i + 1);
            out.append(piece);
            proof {
                assert(piece@ =~= seq![c]);
                assert(seq![c] =~= escape_char(c));
            }
        }
        proof {
            assert(out@ =~= orig + json_escape(s@.subrange(0, i as int + 1)));
        }
        i = i + 1;
    }
    proof {
        assert(s@.subrange(0, n as int) =~= s@);
    }
}

/// Appends the text in double quotes, escaped.
fn quote_into(s: &str, out: &mut String)
    ensures
        final(out)@ == old(out)@ + quoted(s@),
{
    let ghost orig = out@;
    out.append("\"");
    escape_into(s, out);
    out.append("\"");
    proof {
        reveal_strlit("\"");
        assert(out@ =~= orig + quoted(s@));
    }
}

/// A small text for one numeric bound: the template's head, the number,
/// and the closing tick.
fn bound_message(head: &'static str, value_text: String) -> (s: String)
    ensures
        s@ == head@ + value_text@ + "`."@,
{
    let mut s = head.to_owned();
    s.append(value_text.as_str());
    s.append("`.");
    proof {
        assert(s@ =~= head@ + value_text@ + "`."@);
    }
    s
}

/// The final display text of one error (see `message_of`).
pub fn error_message(e: &Error) -> (s: String)
    ensures
        s@ == message_of(error_model(*e)),
    decreases e, 0int,
{
    match e {
        Error::Minimum(m) => {
            match &m.format {
                MessageFormat::Literal(t) => t.clone(),
                MessageFormat::Default => bound_message(
                    "The number must be `>= ",
                    m.params.minimum.to_text(),
                ),
            }
        },
        Error::Maximum(m) => {
            match &m.format {
                MessageFormat::Literal(t) => t.clone(),
                MessageFormat::Default => bound_message(
                    "The number must be `<= ",
                    m.params.maximum.to_text(),
                ),
            }
        },
        Error::ExclusiveMinimum(m) => {
            match &m.format {
                MessageFormat::Literal(t) => t.clone(),
                MessageFormat::Default => bound_message(
                    "The number must be `> ",
                    m.params.exclusive_minimum.to_text(),
                ),
            }
        },
        Error::ExclusiveMaximum(m) => {
            match &m.format {
                MessageFormat::Literal(t) => t.clone(),
                MessageFormat::Default => bound_message(
                    "The number must be `< ",
                    m.params.exclusive_maximum.to_text(),
                ),
            }
        },
        Error::MultipleOf(m) => {
            match &m.format {
                MessageFormat::Literal(t) => t.clone(),
                MessageFormat::Default => bound_message(
                    "The value must be multiple of `",
                    m.params.multiple_of.to_text(),
                ),
            }
        },
        Error::MaxLength(m) => {
            match &m.format {
                MessageFormat::Literal(t) => t.clone(),
                MessageFormat::Default => bound_message(
                    "The length of the value must be `<= ",
                    usize_text(m.params.max_length),
                ),
            }
        },
        Error::MinLength(m) => {
            match &m.format {
                MessageFormat::Literal(t) => t.clone(),
                MessageFormat::Default => bound_message(
                    "The length of the value must be `>= ",
                    usize_text(m.params.min_length),
                ),
            }
        },
        Error::MaxItems(m) => {
            match &m.format {
                MessageFormat::Literal(t) => t.clone(),
                MessageFormat::Default => bound_message(
                    "The length of the items must be `<= ",
                    usize_text(m.params.max_items),
                ),
            }
        },
        Error::MinItems(m) => {
            match &m.format {
                MessageFormat::Literal(t) => t.clone(),
                MessageFormat::Default => bound_message(
                    "The length of the items must be `>= ",
                    usize_text(m.params.min_items),
                ),
            }
        },
        Error::MaxProperties(m) => {
            match &m.format {
                MessageFormat::Literal(t) => t.clone(),
                MessageFormat::Default => bound_message(
                    "The size of the properties must be `<= ",
                    usize_text(m.params.max_properties),
                ),
            }
        },
        Error::MinProperties(m) => {
            match &m.format {
                MessageFormat::Literal(t) => t.clone(),
                MessageFormat::Default => bound_message(
                    "The size of the properties must be `>= ",
                    usize_text(m.params.min_properties),
                ),
            }
        },
        Error::Pattern(m) => {
            match &m.format {
                MessageFormat::Literal(t) => t.clone(),
                MessageFormat::Default => {
                    let mut s = "The value must match the pattern of \"".to_owned();
                    s.append(m.params.pattern.as_str());
                    s.append("\".");
                    proof {
                        assert(s@ =~= message_of(error_model(*e)));
                    }
                    s
                },
            }
        },
        Error::Enumerate(m) => {
            match &m.format {
                MessageFormat::Literal(t) => t.clone(),
                MessageFormat::Default => {
                    let mut s = "The value must be in [".to_owned();
                    let ghost vals = numbers_model(m.params.enumerate@);
                    proof {
                        lemma_numbers_model(m.params.enumerate@);
                        assert(vals.subrange(0, 0) =~= Seq::<int>::empty());
                        assert(s@ =~= "The value must be in ["@ + join_numbers(
                            vals.subrange(0, 0),
                        ));
                    }
                    let n = m.params.enumerate.len();
                    let mut i: usize = 0;
                    while i < n
                        invariant
                            i <= n,
                            n == m.params.enumerate@.len(),
                            vals == numbers_model(m.params.enumerate@),
                            vals.len() == n,
                            forall|k: int|
                                0 <= k < n ==> vals[k] == (
                                #[trigger] m.params.enumerate@[k]).as_int(),
                            s@ =~= "The value must be in ["@ + join_numbers(
                                vals.subrange(0, i as int),
                            ),
                        decreases n - i,
                    {
                        let ghost prefix = vals.subrange(0, i as int);
                        proof {
                            lemma_join_numbers_push(prefix, vals[i as int]);
                            assert(vals.subrange(0, i as int + 1) =~= prefix.push(
                                vals[i as int],
                            ));
                        }
                        if i > 0 {
                            out_comma(&mut s);
                        }
                        let t = m.params.enumerate[i].to_text();
                        s.append(t.as_str());
                        i = i + 1;
                    }
                    proof {
                        assert(vals.subrange(0, n as int) =~= vals);
                    }
                    s.append("].");
                    proof {
                        assert(s@ =~= message_of(error_model(*e)));
                    }
                    s
                },
            }
        },
        Error::Custom(t) => t.clone(),
        Error::Items(a) => render_json_array(a),
        Error::Properties(o) => render_json_object(o),
    }
}

/// Appends the enumeration separator.
fn out_comma(s: &mut String)
    ensures
        final(s)@ == old(s)@ + ", "@,
{
    s.append(", ");
}

/// The decimal text of a length or count.
fn usize_text(n: usize) -> (s: String)
    ensures
        s@ == spec_decimal(n as int),
{
    decimal_digits(n as u128)
}

/// Appends the serialized `errors` list.
fn render_error_list(v: &Vec<Error>, out: &mut String)
    ensures
        final(out)@ == old(out)@ + json_error_list(errors_list_model(v@)),
    decreases v@, 0int,
{
    let ghost em = errors_list_model(v@);
    let ghost orig = out@;
    proof {
        lemma_errors_list_model(v@);
        assert(em.subrange(0, 0) =~= Seq::<ErrorModel>::empty());
        assert(out@ =~= orig + json_error_list(em.subrange(0, 0)));
    }
    let n = v.len();
    let mut i: usize = 0;
    while i < n
        invariant
            i <= n,
            n == v@.len(),
            em == errors_list_model(v@),
            em.len() == n,
            forall|k: int| 0 <= k < n ==> em[k] == crate::error::error_model(#[trigger] v@[k]),
            out@ =~= orig + json_error_list(em.subrange(0, i as int)),
        decreases n - i,
    {
        let ghost prefix = em.subrange(0, i as int);
        proof {
            lemma_json_error_list_push(prefix, em[i as int]);
            assert(em.subrange(0, i as int + 1) =~= prefix.push(em[i as int]));
        }
        if i > 0 {
            out.append(",");
            proof {
                reveal_strlit(",");
                assert(","@ =~= seq![',']);
            }
        }
        let msg = error_message(&v[i]);
        quote_into(msg.as_str(), out);
        proof {
            assert(quoted(msg@) == quoted(message_of(em[i as int])));
            assert(out@ =~= orig + json_error_list(em.subrange(0, i as int + 1)));
        }
        i = i + 1;
    }
    proof {
        assert(em.subrange(0, n as int) =~= em);
    }
}

/// Appends the serialized `properties` entries.
fn render_prop_entries(v: &Vec<(String, Errors)>, out: &mut String)
    ensures
        final(out)@ == old(out)@ + json_prop_entries(props_model(v@)),
    decreases v@, 0int,
{
    let ghost em = props_model(v@);
    let ghost orig = out@;
    proof {
        lemma_props_model(v@);
        assert(em.subrange(0, 0) =~= Seq::<(Seq<char>, ErrorsModel)>::empty());
        assert(out@ =~= orig + json_prop_entries(em.subrange(0, 0)));
    }
    let n = v.len();
    let mut i: usize = 0;
    while i < n
        invariant
            i <= n,
            n == v@.len(),
            em == props_model(v@),
            em.len() == n,
            forall|k: int|
                0 <= k < n ==> em[k] == ((#[trigger] v@[k]).0@, errors_model(v@[k].1)),
            out@ =~= orig + json_prop_entries(em.subrange(0, i as int)),
        decreases n - i,
    {
        let ghost prefix = em.subrange(0, i as int);
        proof {
            lemma_json_prop_entries_push(prefix, em[i as int]);
            assert(em.subrange(0, i as int + 1) =~= prefix.push(em[i as int]));
        }
        if i > 0 {
            out.append(",");
            proof {
                reveal_strlit(",");
                assert(","@ =~= seq![',']);
            }
        }
        quote_into(v[i].0.as_str(), out);
        out.append(":");
        proof {
            reveal_strlit(":");
            assert(":"@ =~= seq![':']);
        }
        render_json(&v[i].1, out);
        proof {
            assert(out@ =~= orig + json_prop_entries(em.subrange(0, i as int + 1)));
        }
        i = i + 1;
    }
    proof {
        assert(em.subrange(0, n as int) =~= em);
    }
}

/// Appends the serialized `items` entries.
fn render_item_entries(v: &Vec<(usize, Errors)>, out: &mut String)
    ensures
        final(out)@ == old(out)@ + json_item_entries(items_model(v@)),
    decreases v@, 0int,
{
    let ghost em = items_model(v@);
    let ghost orig = out@;
    proof {
        lemma_items_model(v@);
        assert(em.subrange(0, 0) =~= Seq::<(int, ErrorsModel)>::empty());
        assert(out@ =~= orig + json_item_entries(em.subrange(0, 0)));
    }
    let n = v.len();
    let mut i: usize = 0;
    while i < n
        invariant
            i <= n,
            n == v@.len(),
            em == items_model(v@),
            em.len() == n,
            forall|k: int|
                0 <= k < n ==> em[k] == ((#[trigger] v@[k]).0 as int, errors_model(v@[k].1)),
            out@ =~= orig + json_item_entries(em.subrange(0, i as int)),
        decreases n - i,
    {
        let ghost prefix = em.subrange(0, i as int);
        proof {
            lemma_json_item_entries_push(prefix, em[i as int]);
            assert(em.subrange(0, i as int + 1) =~= prefix.push(em[i as int]));
        }
        if i > 0 {
            out.append(",");
            proof {
                reveal_strlit(",");
                assert(","@ =~= seq![',']);
            }
        }
        out.append("\"");
        let key_text = decimal_digits(v[i].0 as u128);
        out.append(key_text.as_str());
        out.append("\":");
        proof {
            reveal_strlit("\"");
            reveal_strlit("\":");
            assert("\""@ =~= seq!['"']);
            assert("\":"@ =~= seq!['"', ':']);
        }
        render_json(&v[i].1, out);
        proof {
            assert(out@ =~= orig + json_item_entries(em.subrange(0, i as int + 1)));
        }
        i = i + 1;
    }
    proof {
        assert(em.subrange(0, n as int) =~= em);
    }
}

/// Appends the serialized form of an index-keyed node.
fn render_json_array_into(a: &ArrayErrors, out: &mut String)
    ensures
        final(out)@ == old(out)@ + json_of_array(crate::error::array_model(*a)),
    decreases a, 0int,
{
    let ghost orig = out@;
    out.append("{\"errors\":[");
    render_error_list(&a.errors, out);
    out.append("],\"items\":{");
    render_item_entries(&a.items, out);
    out.append("}}");
    proof {
        assert(out@ =~= orig + json_of_array(crate::error::array_model(*a)));
    }
}

/// Appends the serialized form of a name-keyed node.
fn render_json_object_into(o: &ObjectErrors, out: &mut String)
    ensures
        final(out)@ == old(out)@ + json_of_object(crate::error::object_model(*o)),
    decreases o, 0int,
{
    let ghost orig = out@;
    out.append("{\"errors\":[");
    render_error_list(&o.errors, out);
    out.append("],\"properties\":{");
    render_prop_entries(&o.properties, out);
    out.append("}}");
    proof {
        assert(out@ =~= orig + json_of_object(crate::error::object_model(*o)));
    }
}

/// The serialized form of an index-keyed node.
fn render_json_array(a: &ArrayErrors) -> (s: String)
    ensures
        s@ == json_of_array(crate::error::array_model(*a)),
    decreases a, 1int,
{
    let mut out = String::new();
    render_json_array_into(a, &mut out);
    proof {
        assert(out@ =~= json_of_array(crate::error::array_model(*a)));
    }
    out
}

/// The serialized form of a name-keyed node.
fn render_json_object(o: &ObjectErrors) -> (s: String)
    ensures
        s@ == json_of_object(crate::error::object_model(*o)),
    decreases o, 1int,
{
    let mut out = String::new();
    render_json_object_into(o, &mut out);
    proof {
        assert(out@ =~= json_of_object(crate::error::object_model(*o)));
    }
    out
}

/// Appends the serialized form of a whole tree.
fn render_json(t: &Errors, out: &mut String)
    ensures
        final(out)@ == old(out)@ + json_of(errors_model(*t)),
    decreases t, 0int,
{
    match t {
        Errors::NewType(l) => {
            let ghost orig = out@;
            out.append("{\"errors\":[");
            render_error_list(l, out);
            out.append("]}");
            proof {
                assert(out@ =~= orig + json_of(errors_model(*t)));
            }
        },
        Errors::Object(o) => {
            render_json_object_into(o, out);
        },
        Errors::Array(a) => {
            render_json_array_into(a, out);
        },
    }
}

impl Errors {
    /// The canonical serialized form of the whole tree.
    pub fn to_json(&self) -> (s: String)
        ensures
            s@ == json_of(errors_model(*self)),
    {
        let mut out = String::new();
        render_json(self, &mut out);
        proof {
            assert(out@ =~= json_of(errors_model(*self)));
        }
        out
    }
}

impl Error {
    /// The final display text of this error.
    pub fn message(&self) -> (s: String)
        ensures
            s@ == message_of(error_model(*self)),
    {
        error_message(self)
    }
}

} // verus!
