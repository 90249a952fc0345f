//! Generation of source-code identifiers from the lookup tables: one
//! sanitized camel-case identifier per row, deterministic and in row order.
use vstd::prelude::*;
use vstd::string::StrSliceExecFns;
use vstd::string::StringExecFns;
use convert_case::Case;
use convert_case::Casing;
use crate::strutil::dec_seq;
use crate::strutil::push_char;
use crate::strutil::u64_to_dec;
use crate::tables::ColorRecord;
use crate::tables::PartCategoryRecord;

verus! {

/// What one character contributes to a sanitized identifier: punctuation
/// becomes a space or a spelled-out word, quotes vanish, everything else
/// stays.
pub open spec fn sanitize_char(c: char) -> Seq<char> {
    if c == '&' {
        " and "@
    } else if c == '!' {
        " exclam "@
    } else if c == '\'' || c == '"' {
        Seq::empty()
    } else if c == '@' {
        " at "@
    } else if c == '#' {
        " number "@
    } else if c == ',' || c == '.' || c == ':' || c == ';' || c == '(' || c == ')' || c == '[' || c
        == ']' || c == '{' || c == '}' || c == '/' || c == '\\' || c == '*' || c == '?' {
        " "@
    } else {
        seq![c]
    }
}

/// The sanitized text: each character replaced by its contribution, in order.
pub open spec fn sanitized(s: Seq<char>) -> Seq<char>
    decreases s.len(),
{
    if s.len() == 0 {
        Seq::empty()
    } else {
        sanitized(s.drop_last()) + sanitize_char(s.last())
    }
}

/// What convert_case's camel conversion returns for a text.
pub uninterp spec fn camel_of(s: Seq<char>) -> Seq<char>;

/// Relies on convert_case's Casing::to_case with Case::Camel: camel-casing a
/// text is a function of its characters alone.
#[verifier::external_body]
fn to_camel(s: &str) -> (r: String)
    ensures
        r@ == camel_of(s@),
{
    s.to_case(Case::Camel)
}

/// A sanitized camel-case identifier for a table row's name.
pub fn sanitize_and_case(s: &str) -> (r: String)
    ensures
        r@ == camel_of(sanitized(s@)),
{
    let n = s.unicode_len();
    let mut cleaned = String::new();
    let mut i: usize = 0;
    while i < n
        invariant
            n == s@.len(),
            i <= n,
            cleaned@ == sanitized(s@.take(i as int)),
        decreases n - i,
    {
        proof {
            assert(s@.take(i + 1 as int).drop_last() =~= s@.take(i as int));
            assert(s@.take(i + 1 as int).last() == s@[i as int]);
        }
        let ghost before = cleaned@;
        let c = s.get_char(i);
        if c == '&' {
            cleaned.append(" and ");
        } else if c == '!' {
            cleaned.append(" exclam ");
        } else if c == '\'' || c == '"' {
        } else if c == '@' {
            cleaned.append(" at ");
        } else if c == '#' {
            cleaned.append(" number ");
        } else if c == ',' || c == '.' || c == ':' || c == ';' || c == '(' || c == ')' || c == '['
            || c == ']' || c == '{' || c == '}' || c == '/' || c == '\\' || c == '*' || c == '?' {
            cleaned.append(" ");
        } else {
            push_char(&mut cleaned, c);
            proof {
                assert(before.push(c) =~= before + seq![c]);
            }
        }
        proof {
            assert(cleaned@ == before + sanitize_char(c));
        }
        i = i + 1;
    }
    proof {
        assert(s@.take(n as int) =~= s@);
    }
    to_camel(cleaned.as_str())
}

/// One generated enum case line: newline, indentation, identifier, value.
pub open spec fn category_line(c: PartCategoryRecord) -> Seq<char> {
    "\n   case "@ + camel_of(sanitized(c.name@)) + " = "@ + dec_seq(c.id as nat)
}

/// The case lines of all categories, in row order.
pub open spec fn category_lines(cs: Seq<PartCategoryRecord>) -> Seq<char>
    decreases cs.len(),
{
    if cs.len() == 0 {
        Seq::empty()
    } else {
        category_lines(cs.drop_last()) + category_line(cs.last())
    }
}

/// The generated enum of part categories: a header line, one case line per
/// category row in row order, and a closing brace.
pub fn generate_part_categories(part_categories: Vec<PartCategoryRecord>) -> (r: String)
    ensures
        r@ == "enum PartCategory: Int {"@ + category_lines(part_categories@) + "\n}"@,
{
    let mut out = String::from_str("enum PartCategory: Int {");
    proof {
        assert(out@ =~= "enum PartCategory: Int {"@ + category_lines(
            part_categories@.take(0int),
        ));
    }
    let n = part_categories.len();
    let mut i: usize = 0;
    while i < n
        invariant
            n == part_categories@.len(),
            i <= n,
            out@ == "enum PartCategory: Int {"@ + category_lines(part_categories@.take(i as int)),
        decreases n - i,
    {
        proof {
            assert(part_categories@.take(i + 1 as int).drop_last() =~= part_categories@.take(
                i as int,
            ));
            assert(part_categories@.take(i + 1 as int).last() == part_categories@[i as int]);
        }
        let cat = &part_categories[i];
        let ident = sanitize_and_case(cat.name.as_str());
        let num = u64_to_dec(cat.id as u64);
        out.append("\n   case ");
        out.append(ident.as_str());
        out.append(" = ");
        out.append(num.as_str());
        proof {
            assert(out@ =~= "enum PartCategory: Int {"@ + category_lines(
                part_categories@.take(i + 1 as int),
            ));
        }
        i = i + 1;
    }
    proof {
        assert(part_categories@.take(n as int) =~= part_categories@);
    }
    out.concat("\n}")
}

/// The generated color text: nothing is generated for colors.
pub fn generate_colors(colors: Vec<ColorRecord>) -> (r: String)
    ensures
        r@ == Seq::<char>::empty(),
{
    let _unused = colors;
    String::new()
}

/// Both generated texts at once: part categories and colors.
pub fn generate_swift_code(part_categories: Vec<PartCategoryRecord>, colors: Vec<ColorRecord>) -> (r:
    (String, String))
    ensures
        r.0@ == "enum PartCategory: Int {"@ + category_lines(part_categories@) + "\n}"@,
        r.1@ == Seq::<char>::empty(),
{
    let pc = generate_part_categories(part_categories);
    let cols = generate_colors(colors);
    (pc, cols)
}

} // verus!
