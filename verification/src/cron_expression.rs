use vstd::prelude::*;

use crate::cron_field::CronField;
use crate::cron_lexer::{
    lemma_field_tokens_bounded, tokenize_fields, tokenize_spec, utf8_len,
    LexError, Token,
};
use crate::cron_parser::{
    base_node, field_node, item_node, lemma_parse_error_in_range, parse_field, parse_field_spec, AstNode, AstTreeNode,
    CronExpressionParserErrors, ParsedBase, ParsedItem,
};
use crate::cron_schedule::{
    ast_to_cron_field, convertible, convertible_items, converts, converts_items, BOTH_DAYS_UNSPECIFIED,
    validate_ast_node, validate_items_spec, validate_spec, TaskScheduleCron,
};
use crate::errors::{CronError, CronErrorTypes};

verus! {

/// A wildcard item at a position: what an empty field and the year stand for.
pub open spec fn wildcard_item(start: usize) -> ParsedItem {
    ParsedItem { start, base: ParsedBase::Wildcard, step: None }
}

/// The position given to an empty field: that of the last token of the field before it, or 0.
pub open spec fn empty_field_start(fields: Seq<Seq<Token>>, idx: int) -> usize {
    if idx > 0 && fields[idx - 1].len() > 0 {
        fields[idx - 1].last().start
    } else {
        0
    }
}

/// The items of field `idx` of the seven: a wildcard for an empty field and for the year (which
/// the lexer never fills), the parsed items otherwise.
pub open spec fn field_items(fields: Seq<Seq<Token>>, idx: int) -> Seq<ParsedItem> {
    if idx >= fields.len() {
        seq![wildcard_item(0)]
    } else if fields[idx].len() == 0 {
        seq![wildcard_item(empty_field_start(fields, idx))]
    } else {
        parse_field_spec(fields[idx])->Ok_0
    }
}

/// The first field, from `idx` on, whose tokens do not parse: its index, the error and the
/// index of the token where it arose.
pub open spec fn first_parse_failure(fields: Seq<Seq<Token>>, idx: nat) -> Option<
    (int, CronExpressionParserErrors, int),
>
    decreases fields.len() - idx,
{
    if idx >= fields.len() {
        None
    } else if fields[idx as int].len() > 0 && parse_field_spec(fields[idx as int]) is Err {
        let (e, i) = parse_field_spec(fields[idx as int])->Err_0;
        Some((idx as int, e, i))
    } else {
        first_parse_failure(fields, idx + 1)
    }
}

/// The checks of `validate_spec` on the items of a field from index `i` on, in order.
pub open spec fn items_check(items: Seq<ParsedItem>, field_pos: int, i: nat) -> Result<
    (),
    CronExpressionParserErrors,
>
    decreases items.len() - i,
{
    if i >= items.len() {
        Ok(())
    } else {
        match validate_spec(item_node(items[i as int]), field_pos) {
            Err(e) => Err(e),
            Ok(()) => items_check(items, field_pos, i + 1),
        }
    }
}

/// The first of the seven fields, from `idx` on, whose items fail their checks.
pub open spec fn first_check_failure(fields: Seq<Seq<Token>>, idx: nat) -> Option<
    (int, CronExpressionParserErrors),
>
    decreases 7 - idx,
{
    if idx >= 7 {
        None
    } else {
        match items_check(field_items(fields, idx as int), idx as int, 0) {
            Err(e) => Some((idx as int, e)),
            Ok(()) => first_check_failure(fields, idx + 1),
        }
    }
}

/// The field is a lone `?`.
pub open spec fn unspecified_items(items: Seq<ParsedItem>) -> bool {
    &&& items.len() == 1
    &&& items[0].step is None
    &&& items[0].base is Unspecified
}

/// `f` is the field that the items stand for: the item itself, or the list of them.
pub open spec fn field_stands_for(items: Seq<ParsedItem>, f: CronField) -> bool {
    if items.len() == 1 {
        converts(item_node(items[0]), f)
    } else {
        &&& f is List
        &&& f->List_0.len() == items.len()
        &&& forall|j: int|
            0 <= j < items.len() ==> converts(item_node(items[j]), #[trigger] f->List_0[j])
    }
}

/// What reading the CRON expression `s` gives: the lexer's error; else the parser's first
/// error, field by field; else the first failed check, field by field; else an error when
/// both day fields are `?`; else the schedule whose fields the items stand for.
pub open spec fn cron_expression_outcome(s: Seq<char>, r: Result<TaskScheduleCron, CronError>) -> bool {
    match tokenize_spec(s, utf8_len(s)) {
        Err((e, position, field_pos)) => r == Err::<TaskScheduleCron, CronError>(
            CronError { field_pos, position, error_type: CronErrorTypes::Lexer(e) },
        ),
        Ok(fields) => match first_parse_failure(fields, 0) {
            Some((idx, e, i)) => r == Err::<TaskScheduleCron, CronError>(
                CronError {
                    field_pos: idx as usize,
                    position: fields[idx][i].start,
                    error_type: CronErrorTypes::Parser(e),
                },
            ),
            None => match first_check_failure(fields, 0) {
                Some((idx, e)) => r == Err::<TaskScheduleCron, CronError>(
                    CronError {
                        field_pos: idx as usize,
                        position: field_items(fields, idx)[0].start,
                        error_type: CronErrorTypes::Parser(e),
                    },
                ),
                None => if unspecified_items(field_items(fields, 3)) && unspecified_items(
                    field_items(fields, 5),
                ) {
                    r == Err::<TaskScheduleCron, CronError>(
                        CronError {
                            field_pos: 3,
                            position: field_items(fields, 3)[0].start,
                            error_type: CronErrorTypes::Parser(
                                CronExpressionParserErrors::InvalidUnspecifiedField { field: BOTH_DAYS_UNSPECIFIED },
                            ),
                        },
                    )
                } else {
                    &&& r is Ok
                    &&& field_stands_for(field_items(fields, 0), r->Ok_0.seconds_field())
                    &&& field_stands_for(field_items(fields, 1), r->Ok_0.minute_field())
                    &&& field_stands_for(field_items(fields, 2), r->Ok_0.hour_field())
                    &&& field_stands_for(field_items(fields, 3), r->Ok_0.day_of_month_field())
                    &&& field_stands_for(field_items(fields, 4), r->Ok_0.month_field())
                    &&& field_stands_for(field_items(fields, 5), r->Ok_0.day_of_week_field())
                    &&& field_stands_for(field_items(fields, 6), r->Ok_0.year_field())
                },
            },
        },
    }
}

proof fn lemma_item_node_convertible(item: ParsedItem)
    ensures
        convertible(item_node(item)),
{
    assert(convertible(base_node(item.start, item.base)));
}

proof fn lemma_items_convertible(v: Vec<AstNode>, items: Seq<ParsedItem>, n: nat)
    requires
        n <= v.len(),
        v.len() == items.len(),
        forall|j: int| 0 <= j < items.len() ==> #[trigger] v[j] == item_node(items[j]),
    ensures
        convertible_items(v, n),
    decreases n,
{
    if n > 0 {
        lemma_item_node_convertible(items[n - 1]);
        assert(v[n - 1] == item_node(items[n - 1]));
        lemma_items_convertible(v, items, (n - 1) as nat);
    }
}

/// A parsed field can always be turned into a `CronField`.
proof fn lemma_field_node_convertible(node: AstNode, items: Seq<ParsedItem>)
    requires
        field_node(node, items),
    ensures
        convertible(node),
{
    if items.len() == 1 {
        lemma_item_node_convertible(items[0]);
    } else {
        let v = node.kind->List_0;
        lemma_items_convertible(v, items, v.len() as nat);
    }
}

proof fn lemma_validate_items(v: Vec<AstNode>, items: Seq<ParsedItem>, field_pos: int, i: nat)
    requires
        i <= v.len(),
        v.len() == items.len(),
        forall|j: int| 0 <= j < items.len() ==> #[trigger] v[j] == item_node(items[j]),
    ensures
        validate_items_spec(v, i, field_pos) == items_check(items, field_pos, i),
    decreases v.len() - i,
{
    if i < v.len() {
        assert(v[i as int] == item_node(items[i as int]));
        lemma_validate_items(v, items, field_pos, i + 1);
    }
}

/// Checking a parsed field checks its items in order.
proof fn lemma_validate_field_node(node: AstNode, items: Seq<ParsedItem>, field_pos: int)
    requires
        field_node(node, items),
    ensures
        validate_spec(node, field_pos) == items_check(items, field_pos, 0),
{
    if items.len() == 1 {
        assert(items_check(items, field_pos, 1) == Ok::<(), CronExpressionParserErrors>(()));
    } else {
        lemma_validate_items(node.kind->List_0, items, field_pos, 0);
    }
}

proof fn lemma_converts_items_each(v: Vec<AstNode>, fs: Vec<CronField>, n: nat, j: int)
    requires
        converts_items(v, fs, n),
        n <= v.len(),
        0 <= j < n,
    ensures
        converts(v[j], fs[j]),
    decreases n,
{
    if j < n - 1 {
        lemma_converts_items_each(v, fs, (n - 1) as nat, j);
    }
}

/// The field converted from a parsed field is the one its items stand for.
proof fn lemma_field_stands_for(node: AstNode, items: Seq<ParsedItem>, f: CronField)
    requires
        field_node(node, items),
        converts(node, f),
    ensures
        field_stands_for(items, f),
{
    if items.len() != 1 {
        let v = node.kind->List_0;
        assert forall|j: int| 0 <= j < items.len() implies converts(
            item_node(items[j]),
            #[trigger] f->List_0[j],
        ) by {
            lemma_converts_items_each(v, f->List_0, v.len() as nat, j);
            assert(v[j] == item_node(items[j]));
        }
    }
}

/// The start of a parsed field is that of its first item.
proof fn lemma_field_node_start(node: AstNode, items: Seq<ParsedItem>)
    requires
        field_node(node, items),
    ensures
        node.start == items[0].start,
        (node.kind is Unspecified) == unspecified_items(items),
{
}

impl TaskScheduleCron {
    /// Reads a CRON expression of six fields (seconds, minutes, hours, day of month, month,
    /// day of week) or of the first five of them (any day of the week), whose year is any year
    /// (see `cron_expression_outcome`).
    pub fn from_str(s: &str) -> (r: Result<TaskScheduleCron, CronError>)
        requires
            s@.len() < usize::MAX - 3,
            utf8_len(s@) <= usize::MAX,
        ensures
            cron_expression_outcome(s@, r),
    {
        let tokens = match tokenize_fields(s) {
            Ok(t) => t,
            Err((e, position, field_pos)) => {
                return Err(CronError { field_pos, position, error_type: CronErrorTypes::Lexer(e) });
            },
        };
        let ghost fields = tokenize_spec(s@, utf8_len(s@))->Ok_0;
        proof {
            lemma_field_tokens_bounded(s@, utf8_len(s@));
        }
        let mut ast: Vec<AstNode> = Vec::new();
        let mut idx: usize = 0;
        while idx < 6
            invariant
                tokenize_spec(s@, utf8_len(s@)) == Ok::<Seq<Seq<Token>>, LexError>(fields),
                tokens@.len() == 6,
                fields.len() == 6,
                forall|i: int| 0 <= i < 6 ==> (#[trigger] tokens@[i])@ == fields[i],
                forall|i: int| 0 <= i < 6 ==> (#[trigger] fields[i]).len() <= s@.len(),
                s@.len() < usize::MAX - 3,
                idx <= 6,
                ast@.len() == idx,
                forall|j: int| 0 <= j < idx ==> field_node(#[trigger] ast@[j], field_items(fields, j)),
                first_parse_failure(fields, 0) == first_parse_failure(fields, idx as nat),
            decreases 6 - idx,
        {
            let toks = &tokens[idx];
            assert(toks@ == fields[idx as int]);
            if toks.len() == 0 {
                let mut start: usize = 0;
                if idx > 0 {
                    let prev = &tokens[idx - 1];
                    assert(prev@ == fields[idx - 1]);
                    if prev.len() > 0 {
                        start = prev[prev.len() - 1].start;
                    }
                }
                let node = AstNode { start, kind: AstTreeNode::Wildcard };
                proof {
                    assert(field_items(fields, idx as int) == seq![wildcard_item(start)]);
                    assert(node == item_node(wildcard_item(start)));
                }
                ast.push(node);
            } else {
                match parse_field(toks) {
                    Ok(node) => {
                        ast.push(node);
                    },
                    Err((e, i)) => {
                        proof {
                            lemma_parse_error_in_range(toks@, 0);
                        }
                        return Err(
                            CronError {
                                field_pos: idx,
                                position: toks[i].start,
                                error_type: CronErrorTypes::Parser(e),
                            },
                        );
                    },
                }
            }
            idx += 1;
        }
        let year_node = AstNode::default_node();
        proof {
            assert(field_items(fields, 6) == seq![wildcard_item(0)]);
            assert(year_node == item_node(wildcard_item(0)));
        }
        ast.push(year_node);
        let mut p: usize = 0;
        while p < 7
            invariant
                tokenize_spec(s@, utf8_len(s@)) == Ok::<Seq<Seq<Token>>, LexError>(fields),
                fields.len() == 6,
                first_parse_failure(fields, 0) is None,
                ast@.len() == 7,
                forall|j: int| 0 <= j < 7 ==> field_node(#[trigger] ast@[j], field_items(fields, j)),
                p <= 7,
                first_check_failure(fields, 0) == first_check_failure(fields, p as nat),
            decreases 7 - p,
        {
            proof {
                lemma_validate_field_node(ast@[p as int], field_items(fields, p as int), p as int);
                lemma_field_node_start(ast@[p as int], field_items(fields, p as int));
            }
            match validate_ast_node(&ast[p], p) {
                Err(e) => {
                    return Err(
                        CronError {
                            field_pos: p,
                            position: ast[p].start,
                            error_type: CronErrorTypes::Parser(e),
                        },
                    );
                },
                Ok(()) => {},
            }
            p += 1;
        }
        proof {
            lemma_field_node_start(ast@[3], field_items(fields, 3));
            lemma_field_node_start(ast@[5], field_items(fields, 5));
        }
        let dom_unspecified = match ast[3].kind {
            AstTreeNode::Unspecified => true,
            _ => false,
        };
        let dow_unspecified = match ast[5].kind {
            AstTreeNode::Unspecified => true,
            _ => false,
        };
        if dom_unspecified && dow_unspecified {
            return Err(
                CronError {
                    field_pos: 3,
                    position: ast[3].start,
                    error_type: CronErrorTypes::Parser(
                        CronExpressionParserErrors::InvalidUnspecifiedField { field: BOTH_DAYS_UNSPECIFIED },
                    ),
                },
            );
        }
        proof {
            lemma_field_node_convertible(ast@[0], field_items(fields, 0));
            lemma_field_node_convertible(ast@[1], field_items(fields, 1));
            lemma_field_node_convertible(ast@[2], field_items(fields, 2));
            lemma_field_node_convertible(ast@[3], field_items(fields, 3));
            lemma_field_node_convertible(ast@[4], field_items(fields, 4));
            lemma_field_node_convertible(ast@[5], field_items(fields, 5));
            lemma_field_node_convertible(ast@[6], field_items(fields, 6));
        }
        let f0 = ast_to_cron_field(&ast[0]);
        let f1 = ast_to_cron_field(&ast[1]);
        let f2 = ast_to_cron_field(&ast[2]);
        let f3 = ast_to_cron_field(&ast[3]);
        let f4 = ast_to_cron_field(&ast[4]);
        let f5 = ast_to_cron_field(&ast[5]);
        let f6 = ast_to_cron_field(&ast[6]);
        proof {
            lemma_field_stands_for(ast@[0], field_items(fields, 0), f0);
            lemma_field_stands_for(ast@[1], field_items(fields, 1), f1);
            lemma_field_stands_for(ast@[2], field_items(fields, 2), f2);
            lemma_field_stands_for(ast@[3], field_items(fields, 3), f3);
            lemma_field_stands_for(ast@[4], field_items(fields, 4), f4);
            lemma_field_stands_for(ast@[5], field_items(fields, 5), f5);
            lemma_field_stands_for(ast@[6], field_items(fields, 6), f6);
        }
        Ok(TaskScheduleCron::new([f0, f1, f2, f3, f4, f5, f6]))
    }
}

} // verus!
