//! The diagram emitter: from expressions to the text of a Mermaid
//! entity-relationship diagram.

use crate::model::views;
use crate::text::{is_single_line, lemma_first_line, lines_of};
use crate::parser::{Expression, ExpressionView};
use vstd::prelude::*;
use vstd::string::StringExecFns;

verus! {

/// The line of one field inside a table block: the type, then the name.
pub open spec fn field_line(field: (Seq<char>, Seq<char>)) -> Seq<char> {
    "\t\t"@ + field.1 + " "@ + field.0 + "\n"@
}

/// The lines of the fields of a table, in order.
pub open spec fn field_lines(fields: Seq<(Seq<char>, Seq<char>)>) -> Seq<char>
    decreases fields.len(),
{
    if fields.len() == 0 {
        Seq::empty()
    } else {
        field_line(fields[0]) + field_lines(fields.drop_first())
    }
}

/// The block of a table: a line that opens it, the lines of its fields, a
/// line that closes it, and an empty line.
pub open spec fn table_block(table_name: Seq<char>, fields: Seq<(Seq<char>, Seq<char>)>) -> Seq<
    char,
> {
    "\t"@ + table_name + " {\n"@ + field_lines(fields) + "\t}\n\n"@
}

/// The line of a foreign key: a one-to-many relationship from the table to
/// the table it refers to, labelled with the name of the key.
pub open spec fn relationship_line(
    table_name: Seq<char>,
    referenced_table: Seq<char>,
    foreign_key_name: Seq<char>,
) -> Seq<char> {
    "\t"@ + table_name + " ||--|{ "@ + referenced_table + " : \""@ + foreign_key_name + "\"\n"@
}

/// The text of one expression.
pub open spec fn block_of(expression: ExpressionView) -> Seq<char> {
    match expression {
        ExpressionView::CreateTable { table_name, fields } => table_block(table_name, fields),
        ExpressionView::ForeignKey { table_name, foreign_key_name, field_name, referenced_table } =>
            relationship_line(table_name, referenced_table, foreign_key_name),
    }
}

/// The texts of expressions, one after the other in their order.
pub open spec fn blocks_of(expressions: Seq<ExpressionView>) -> Seq<char>
    decreases expressions.len(),
{
    if expressions.len() == 0 {
        Seq::empty()
    } else {
        block_of(expressions[0]) + blocks_of(expressions.drop_first())
    }
}

/// The diagram of expressions: the header line, then the text of each
/// expression.
pub open spec fn mermaid_of(expressions: Seq<ExpressionView>) -> Seq<char> {
    "erDiagram\n"@ + blocks_of(expressions)
}

/// The text of expressions joined is the text of the first ones followed by
/// the text of the others: every block and every relationship line comes
/// out at the place of its expression.
pub proof fn lemma_blocks_in_order(first: Seq<ExpressionView>, rest: Seq<ExpressionView>)
    ensures
        blocks_of(first + rest) == blocks_of(first) + blocks_of(rest),
        mermaid_of(first + rest) == mermaid_of(first) + blocks_of(rest),
    decreases first.len(),
{
    if first.len() > 0 {
        lemma_blocks_in_order(first.drop_first(), rest);
        assert((first + rest).drop_first() =~= first.drop_first() + rest);
    }
}

/// What the line of each field holds, without its line feed: the type, a
/// space, and the name.
pub open spec fn field_texts(fields: Seq<(Seq<char>, Seq<char>)>) -> Seq<Seq<char>> {
    Seq::new(fields.len(), |i: int| "\t\t"@ + fields[i].1 + " "@ + fields[i].0)
}

proof fn lemma_field_lines(fields: Seq<(Seq<char>, Seq<char>)>, tail: Seq<char>)
    requires
        forall|i: int|
            0 <= i < fields.len() ==> is_single_line(#[trigger] fields[i].0) && is_single_line(
                fields[i].1,
            ),
    ensures
        lines_of(field_lines(fields) + tail) == field_texts(fields) + lines_of(tail),
    decreases fields.len(),
{
    if fields.len() > 0 {
        let others = fields.drop_first();
        let text = "\t\t"@ + fields[0].1 + " "@ + fields[0].0;
        reveal_strlit("\t\t");
        reveal_strlit(" ");
        reveal_strlit("\n");
        assert forall|i: int| 0 <= i < others.len() implies is_single_line(
            #[trigger] others[i].0,
        ) && is_single_line(others[i].1) by {
            assert(others[i] == fields[i + 1]);
        }
        lemma_field_lines(others, tail);
        lemma_first_line(text, field_lines(others) + tail);
        assert(field_lines(fields) + tail =~= text + seq!['\n'] + (field_lines(others) + tail));
    }
}

/// The block of a table with N fields has N field lines, between the line
/// that opens the block and the two that close it; the line of each field
/// holds the type before the name, and the lines stand in the order of the
/// fields. (Stated of names and types without line breaks, as the tokenizer
/// gives them.)
pub proof fn lemma_table_block_lines(table_name: Seq<char>, fields: Seq<(Seq<char>, Seq<char>)>)
    requires
        is_single_line(table_name),
        forall|i: int|
            0 <= i < fields.len() ==> is_single_line(#[trigger] fields[i].0) && is_single_line(
                fields[i].1,
            ),
    ensures
        lines_of(table_block(table_name, fields)) == seq!["\t"@ + table_name + " {"@] + field_texts(
            fields,
        ) + seq!["\t}"@, Seq::empty()],
        field_texts(fields).len() == fields.len(),
{
    reveal_strlit("\t");
    reveal_strlit(" {");
    reveal_strlit(" {\n");
    reveal_strlit("\t}");
    reveal_strlit("\t}\n\n");
    let open = "\t"@ + table_name + " {"@;
    let close = "\t}\n\n"@;
    let feed = seq!['\n'];
    assert(table_block(table_name, fields) =~= open + feed + (field_lines(fields) + close));
    lemma_first_line(open, field_lines(fields) + close);
    lemma_field_lines(fields, close);
    assert(close =~= "\t}"@ + feed + feed);
    lemma_first_line("\t}"@, feed);
    lemma_first_line(Seq::empty(), Seq::empty());
}

fn push_fields(contents: &mut String, fields: &Vec<(String, String)>)
    ensures
        final(contents)@ == old(contents)@ + field_lines(views(fields@)),
{
    let ghost all = views(fields@);
    let mut i: usize = 0;
    proof {
        assert(all.skip(0) =~= all);
    }
    while i < fields.len()
        invariant
            i <= fields.len(),
            all == views(fields@),
            old(contents)@ + field_lines(all) == contents@ + field_lines(all.skip(i as int)),
        decreases fields.len() - i,
    {
        proof {
            assert(all.skip(i as int).drop_first() =~= all.skip(i + 1));
        }
        contents.append("\t\t");
        contents.append(fields[i].1.as_str());
        contents.append(" ");
        contents.append(fields[i].0.as_str());
        contents.append("\n");
        i += 1;
    }
}

fn push_expression(contents: &mut String, expression: &Expression)
    ensures
        final(contents)@ == old(contents)@ + block_of(expression@),
{
    match expression {
        Expression::CreateTable { table_name, fields } => {
            contents.append("\t");
            contents.append(table_name.as_str());
            contents.append(" {\n");
            push_fields(contents, fields);
            contents.append("\t}\n\n");
        },
        Expression::ForeignKey { table_name, foreign_key_name, field_name, referenced_table } => {
            contents.append("\t");
            contents.append(table_name.as_str());
            contents.append(" ||--|{ ");
            contents.append(referenced_table.as_str());
            contents.append(" : \"");
            contents.append(foreign_key_name.as_str());
            contents.append("\"\n");
        },
    }
}

/// Renders expressions as a Mermaid entity-relationship diagram.
pub fn exprs_to_mermaid(e: Vec<Expression>) -> (contents: String)
    ensures
        contents@ == mermaid_of(views(e@)),
{
    let ghost all = views(e@);
    let mut contents = String::new();
    contents.append("erDiagram\n");
    let mut i: usize = 0;
    proof {
        assert(all.skip(0) =~= all);
    }
    while i < e.len()
        invariant
            i <= e.len(),
            all == views(e@),
            mermaid_of(all) == contents@ + blocks_of(all.skip(i as int)),
        decreases e.len() - i,
    {
        proof {
            assert(all.skip(i as int).drop_first() =~= all.skip(i + 1));
        }
        push_expression(&mut contents, &e[i]);
        i += 1;
    }
    contents
}

} // verus!
