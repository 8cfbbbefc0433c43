use vstd::prelude::*;

use crate::cron_lexer::{Token, TokenType};

verus! {

/// Errors of the CRON parser and of the checks on what it parsed.
#[derive(Debug, Clone, Copy, PartialEq, Eq)]
pub enum CronExpressionParserErrors {
    /// A number was expected.
    ExpectedNumber,
    /// A token that cannot stand where it stands.
    UnexpectedToken,
    /// A value outside the range of its field (`field` is the field's name).
    ValueOutOfRange { value: u32, field: &'static str, min: u32, max: u32 },
    /// A range whose bounds are reversed or outside the range of its field.
    InvalidRange { start: u32, end: u32, field: &'static str, min: u32, max: u32 },
    /// A step of zero.
    InvalidStepValue { step: u32 },
    /// `L` outside the day-of-month and day-of-week fields.
    InvalidLastOperator,
    /// `W` outside the day-of-month field.
    InvalidNearestWeekdayOperator,
    /// `#` outside the day-of-week field.
    InvalidNthWeekdayOperator,
    /// An occurrence of `#` outside `1..=5`.
    InvalidNthWeekday { nth: u32 },
    /// Day of month and day of week are both `?` (`field` says so).
    InvalidUnspecifiedField { field: &'static str },
}

/// A node of the syntax tree of a CRON field, with the position of its first token.
#[derive(Debug)]
pub struct AstNode {
    pub start: usize,
    pub kind: AstTreeNode,
}

/// The kinds of syntax tree nodes.
#[derive(Debug)]
pub enum AstTreeNode {
    Exact(u32),
    Range(Box<AstNode>, Box<AstNode>),
    Step(Box<AstNode>, u32),
    List(Vec<AstNode>),
    LastOf(Option<i32>),
    NearestWeekday(Box<AstNode>),
    NthWeekday(u32, u32),
    Unspecified,
    Wildcard,
}

impl AstNode {
    /// A wildcard node at position 0.
    pub fn default_node() -> (r: AstNode)
        ensures
            r == (AstNode { start: 0, kind: AstTreeNode::Wildcard }),
    {
        AstNode { start: 0, kind: AstTreeNode::Wildcard }
    }
}

/// The part of an item before an optional step.
pub enum ParsedBase {
    Wildcard,
    Unspecified,
    Exact(u32),
    /// Bounds of a range and the position of the upper bound.
    Range(u32, usize, u32),
    LastOf(Option<i32>),
    /// `W` after a day (`Some`) or after `L` (`None`).
    NearestWeekday(Option<u32>),
    NthWeekday(u32, u32),
}

/// A list item: its first position, its base and its optional step.
pub struct ParsedItem {
    pub start: usize,
    pub base: ParsedBase,
    pub step: Option<u32>,
}

/// An error of the parser and the index of the token where it arose.
pub type ParseFailure = (CronExpressionParserErrors, int);

pub open spec fn clamp_index(k: int, len: int) -> int {
    if k < len { k } else { len - 1 }
}


/// Parses the base of an item starting at token `k`; yields the base and the next index.
pub open spec fn parse_base(toks: Seq<Token>, k: int) -> Result<(ParsedBase, int), ParseFailure> {
    let len = toks.len() as int;
    if k >= len {
        Err((CronExpressionParserErrors::ExpectedNumber, len - 1))
    } else {
        match toks[k].token_type {
            TokenType::Wildcard => Ok((ParsedBase::Wildcard, k + 1)),
            TokenType::Unspecified => Ok((ParsedBase::Unspecified, k + 1)),
            TokenType::Last => if k + 1 < len && toks[k + 1].token_type is Minus {
                if k + 2 < len && toks[k + 2].token_type is Value {
                    Ok(
                        (
                            ParsedBase::LastOf(Some((-(toks[k + 2].token_type->Value_0 as int)) as i32)),
                            k + 3,
                        ),
                    )
                } else {
                    Err((CronExpressionParserErrors::ExpectedNumber, clamp_index(k + 2, len)))
                }
            } else if k + 1 < len && toks[k + 1].token_type is NearestWeekday {
                Ok((ParsedBase::NearestWeekday(None), k + 2))
            } else {
                Ok((ParsedBase::LastOf(None), k + 1))
            },
            TokenType::Value(v) => if k + 1 < len {
                match toks[k + 1].token_type {
                    TokenType::Minus => if k + 2 < len && toks[k + 2].token_type is Value {
                        Ok(
                            (
                                ParsedBase::Range(
                                    v as u32,
                                    toks[k + 2].start,
                                    toks[k + 2].token_type->Value_0 as u32,
                                ),
                                k + 3,
                            ),
                        )
                    } else {
                        Err((CronExpressionParserErrors::ExpectedNumber, clamp_index(k + 2, len)))
                    },
                    TokenType::Last => Ok((ParsedBase::LastOf(Some(v as i32)), k + 2)),
                    TokenType::NearestWeekday => Ok(
                        (ParsedBase::NearestWeekday(Some(v as u32)), k + 2),
                    ),
                    TokenType::NthWeekday => if k + 2 < len && toks[k + 2].token_type is Value {
                        Ok(
                            (
                                ParsedBase::NthWeekday(
                                    v as u32,
                                    toks[k + 2].token_type->Value_0 as u32,
                                ),
                                k + 3,
                            ),
                        )
                    } else {
                        Err((CronExpressionParserErrors::ExpectedNumber, clamp_index(k + 2, len)))
                    },
                    _ => Ok((ParsedBase::Exact(v as u32), k + 1)),
                }
            } else {
                Ok((ParsedBase::Exact(v as u32), k + 1))
            },
            _ => Err((CronExpressionParserErrors::UnexpectedToken, k)),
        }
    }
}

/// Parses an item (a base and an optional `/step`) starting at token `k`.
pub open spec fn parse_item(toks: Seq<Token>, k: int) -> Result<(ParsedItem, int), ParseFailure> {
    let len = toks.len() as int;
    match parse_base(toks, k) {
        Err(e) => Err(e),
        Ok((base, j)) => if j < len && toks[j].token_type is Step {
            if j + 1 < len && toks[j + 1].token_type is Value {
                Ok(
                    (
                        ParsedItem {
                            start: toks[k].start,
                            base,
                            step: Some(toks[j + 1].token_type->Value_0 as u32),
                        },
                        j + 2,
                    ),
                )
            } else {
                Err((CronExpressionParserErrors::ExpectedNumber, clamp_index(j + 1, len)))
            }
        } else {
            Ok((ParsedItem { start: toks[k].start, base, step: None }, j))
        },
    }
}

/// Parses the comma separated items from token `k` to the end.
pub open spec fn parse_items(toks: Seq<Token>, k: int) -> Result<Seq<ParsedItem>, ParseFailure>
    decreases toks.len() - k,
{
    let len = toks.len() as int;
    match parse_item(toks, k) {
        Err(e) => Err(e),
        Ok((item, j)) => if j >= len || j <= k {
            Ok(seq![item])
        } else if toks[j].token_type is ListSeparator {
            if j + 1 >= len {
                Err((CronExpressionParserErrors::ExpectedNumber, j))
            } else {
                match parse_items(toks, j + 1) {
                    Ok(rest) => Ok(seq![item] + rest),
                    Err(e) => Err(e),
                }
            }
        } else {
            Err((CronExpressionParserErrors::UnexpectedToken, j))
        },
    }
}

/// Parses the tokens of one field: its items, or the first error and the index of its token.
pub open spec fn parse_field_spec(toks: Seq<Token>) -> Result<Seq<ParsedItem>, ParseFailure> {
    parse_items(toks, 0)
}

/// The syntax tree node of a parsed base, at position `start`.
pub open spec fn base_node(start: usize, base: ParsedBase) -> AstNode {
    AstNode {
        start,
        kind: match base {
            ParsedBase::Wildcard => AstTreeNode::Wildcard,
            ParsedBase::Unspecified => AstTreeNode::Unspecified,
            ParsedBase::Exact(v) => AstTreeNode::Exact(v),
            ParsedBase::Range(lo, hi_start, hi) => AstTreeNode::Range(
                Box::new(AstNode { start, kind: AstTreeNode::Exact(lo) }),
                Box::new(AstNode { start: hi_start, kind: AstTreeNode::Exact(hi) }),
            ),
            ParsedBase::LastOf(o) => AstTreeNode::LastOf(o),
            ParsedBase::NearestWeekday(Some(v)) => AstTreeNode::NearestWeekday(
                Box::new(AstNode { start, kind: AstTreeNode::Exact(v) }),
            ),
            ParsedBase::NearestWeekday(None) => AstTreeNode::NearestWeekday(
                Box::new(AstNode { start, kind: AstTreeNode::LastOf(None) }),
            ),
            ParsedBase::NthWeekday(d, n) => AstTreeNode::NthWeekday(d, n),
        },
    }
}

/// The syntax tree node of a parsed item.
pub open spec fn item_node(item: ParsedItem) -> AstNode {
    match item.step {
        Some(s) => AstNode {
            start: item.start,
            kind: AstTreeNode::Step(Box::new(base_node(item.start, item.base)), s),
        },
        None => base_node(item.start, item.base),
    }
}

/// `node` is the syntax tree of a field with the given items: the item itself when there is
/// one, a list of them otherwise.
pub open spec fn field_node(node: AstNode, items: Seq<ParsedItem>) -> bool {
    if items.len() == 1 {
        node == item_node(items[0])
    } else {
        &&& items.len() > 1
        &&& node.start == items[0].start
        &&& node.kind is List
        &&& node.kind->List_0.len() == items.len()
        &&& forall|i: int| 0 <= i < items.len() ==> #[trigger] node.kind->List_0[i] == item_node(items[i])
    }
}

/// A parse error points at one of the field's tokens.
pub proof fn lemma_parse_error_in_range(toks: Seq<Token>, k: int)
    requires
        toks.len() > 0,
        k >= 0,
    ensures
        parse_items(toks, k) is Err ==> 0 <= parse_items(toks, k)->Err_0.1 < toks.len(),
    decreases toks.len() - k,
{
    if let Ok((item, j)) = parse_item(toks, k) {
        if !(j >= toks.len() || j <= k) && toks[j].token_type is ListSeparator && j + 1
            < toks.len() {
            lemma_parse_error_in_range(toks, j + 1);
        }
    }
}

fn expected_number_at(k: usize, len: usize) -> (r: (CronExpressionParserErrors, usize))
    requires
        len > 0,
    ensures
        r.0 == CronExpressionParserErrors::ExpectedNumber,
        r.1 as int == clamp_index(k as int, len as int),
{
    (CronExpressionParserErrors::ExpectedNumber, if k < len {
        k
    } else {
        len - 1
    })
}

/// The number of the token at `k`, if it is a number.
fn value_at(toks: &Vec<Token>, k: usize) -> (r: Option<u32>)
    ensures
        k < toks.len() && toks@[k as int].token_type is Value ==> r == Some(
            toks@[k as int].token_type->Value_0,
        ),
        !(k < toks.len() && toks@[k as int].token_type is Value) ==> r is None,
{
    if k < toks.len() {
        match toks[k].token_type {
            TokenType::Value(v) => Some(v),
            _ => None,
        }
    } else {
        None
    }
}

/// Parses the base of an item starting at token `k` (see `parse_base`).
fn parse_base_at(toks: &Vec<Token>, k: usize) -> (r: Result<(AstNode, usize), (CronExpressionParserErrors, usize)>)
    requires
        toks.len() > 0,
        toks.len() < usize::MAX - 3,
    ensures
        match parse_base(toks@, k as int) {
            Ok((b, j)) => r matches Ok((node, j2)) && j2 == j && node == base_node(
                toks@[k as int].start,
                b,
            ),
            Err((e, i)) => r == Err::<(AstNode, usize), (CronExpressionParserErrors, usize)>(
                (e, i as usize),
            ),
        },
{
    let len = toks.len();
    if k >= len {
        return Err((CronExpressionParserErrors::ExpectedNumber, len - 1));
    }
    let start = toks[k].start;
    match toks[k].token_type {
        TokenType::Wildcard => Ok((AstNode { start, kind: AstTreeNode::Wildcard }, k + 1)),
        TokenType::Unspecified => Ok((AstNode { start, kind: AstTreeNode::Unspecified }, k + 1)),
        TokenType::Last => {
            let next_minus = k + 1 < len && match toks[k + 1].token_type {
                TokenType::Minus => true,
                _ => false,
            };
            let next_w = k + 1 < len && match toks[k + 1].token_type {
                TokenType::NearestWeekday => true,
                _ => false,
            };
            if next_minus {
                match value_at(toks, k + 2) {
                    Some(v) => Ok(
                        (
                            AstNode { start, kind: AstTreeNode::LastOf(Some((0 - v as i64) as i32)) },
                            k + 3,
                        ),
                    ),
                    None => Err(expected_number_at(k + 2, len)),
                }
            } else if next_w {
                Ok(
                    (
                        AstNode {
                            start,
                            kind: AstTreeNode::NearestWeekday(
                                Box::new(AstNode { start, kind: AstTreeNode::LastOf(None) }),
                            ),
                        },
                        k + 2,
                    ),
                )
            } else {
                Ok((AstNode { start, kind: AstTreeNode::LastOf(None) }, k + 1))
            }
        },
        TokenType::Value(v) => {
            if k + 1 < len {
                match toks[k + 1].token_type {
                    TokenType::Minus => match value_at(toks, k + 2) {
                        Some(w) => Ok(
                            (
                                AstNode {
                                    start,
                                    kind: AstTreeNode::Range(
                                        Box::new(
                                            AstNode { start, kind: AstTreeNode::Exact(v as u32) },
                                        ),
                                        Box::new(
                                            AstNode {
                                                start: toks[k + 2].start,
                                                kind: AstTreeNode::Exact(w as u32),
                                            },
                                        ),
                                    ),
                                },
                                k + 3,
                            ),
                        ),
                        None => Err(expected_number_at(k + 2, len)),
                    },
                    TokenType::Last => Ok(
                        (AstNode { start, kind: AstTreeNode::LastOf(Some(v as i32)) }, k + 2),
                    ),
                    TokenType::NearestWeekday => Ok(
                        (
                            AstNode {
                                start,
                                kind: AstTreeNode::NearestWeekday(
                                    Box::new(AstNode { start, kind: AstTreeNode::Exact(v as u32) }),
                                ),
                            },
                            k + 2,
                        ),
                    ),
                    TokenType::NthWeekday => match value_at(toks, k + 2) {
                        Some(n) => Ok(
                            (
                                AstNode {
                                    start,
                                    kind: AstTreeNode::NthWeekday(v as u32, n as u32),
                                },
                                k + 3,
                            ),
                        ),
                        None => Err(expected_number_at(k + 2, len)),
                    },
                    _ => Ok((AstNode { start, kind: AstTreeNode::Exact(v as u32) }, k + 1)),
                }
            } else {
                Ok((AstNode { start, kind: AstTreeNode::Exact(v as u32) }, k + 1))
            }
        },
        _ => Err((CronExpressionParserErrors::UnexpectedToken, k)),
    }
}

/// Parses an item starting at token `k` (see `parse_item`).
fn parse_item_at(toks: &Vec<Token>, k: usize) -> (r: Result<(AstNode, usize), (CronExpressionParserErrors, usize)>)
    requires
        toks.len() > 0,
        toks.len() < usize::MAX - 3,
    ensures
        match parse_item(toks@, k as int) {
            Ok((item, j)) => r matches Ok((node, j2)) && j2 == j && node == item_node(item),
            Err((e, i)) => r == Err::<(AstNode, usize), (CronExpressionParserErrors, usize)>(
                (e, i as usize),
            ),
        },
{
    let len = toks.len();
    let (base, j) = match parse_base_at(toks, k) {
        Ok(x) => x,
        Err(e) => return Err(e),
    };
    let next_step = j < len && match toks[j].token_type {
        TokenType::Step => true,
        _ => false,
    };
    if next_step {
        match value_at(toks, j + 1) {
            Some(step) => Ok(
                (
                    AstNode {
                        start: toks[k].start,
                        kind: AstTreeNode::Step(Box::new(base), step as u32),
                    },
                    j + 2,
                ),
            ),
            None => Err(expected_number_at(j + 1, len)),
        }
    } else {
        Ok((base, j))
    }
}

/// Parses the tokens of one field into its syntax tree (see `parse_field_spec`), or yields the
/// first error and the index of its token.
pub fn parse_field(toks: &Vec<Token>) -> (r: Result<AstNode, (CronExpressionParserErrors, usize)>)
    requires
        toks.len() > 0,
        toks.len() < usize::MAX - 3,
    ensures
        match parse_field_spec(toks@) {
            Ok(items) => r matches Ok(node) && field_node(node, items),
            Err((e, i)) => r == Err::<AstNode, (CronExpressionParserErrors, usize)>((e, i as usize)),
        },
{
    let len = toks.len();
    let mut nodes: Vec<AstNode> = Vec::new();
    let ghost mut acc: Seq<ParsedItem> = seq![];
    let mut k: usize = 0;
    loop
        invariant
            toks.len() == len,
            len > 0,
            len < usize::MAX - 3,
            k < len,
            nodes@.len() == acc.len(),
            forall|i: int| 0 <= i < acc.len() ==> #[trigger] nodes@[i] == item_node(acc[i]),
            acc.len() > 0 ==> acc[0].start == toks@[0].start,
            acc.len() == 0 ==> k == 0,
            parse_field_spec(toks@) == (match parse_items(toks@, k as int) {
                Ok(rest) => Ok(acc + rest),
                Err(e) => Err::<Seq<ParsedItem>, ParseFailure>(e),
            }),
        decreases len - k,
    {
        let ghost item_res = parse_item(toks@, k as int);
        let (node, j) = match parse_item_at(toks, k) {
            Ok(x) => x,
            Err(e) => {
                return Err(e);
            },
        };
        let ghost item = item_res->Ok_0.0;
        proof {
            if acc.len() == 0 {
                assert(item.start == toks@[0].start);
            }
        }
        let at_end = j >= len || j <= k;
        if at_end {
            nodes.push(node);
            proof {
                let all = acc + seq![item];
                assert(parse_field_spec(toks@) == Ok::<Seq<ParsedItem>, ParseFailure>(all));
                assert(nodes@.len() == all.len());
                assert forall|i: int| 0 <= i < all.len() implies #[trigger] nodes@[i] == item_node(
                    all[i],
                ) by {
                    if i < acc.len() {
                        assert(all[i] == acc[i]);
                    }
                }
            }
            if nodes.len() == 1 {
                let only = nodes.pop().unwrap();
                return Ok(only);
            }
            let first_start = toks[0].start;
            return Ok(AstNode { start: first_start, kind: AstTreeNode::List(nodes) });
        }
        let is_separator = match toks[j].token_type {
            TokenType::ListSeparator => true,
            _ => false,
        };
        if !is_separator {
            return Err((CronExpressionParserErrors::UnexpectedToken, j));
        }
        if j + 1 >= len {
            return Err((CronExpressionParserErrors::ExpectedNumber, j));
        }
        nodes.push(node);
        proof {
            assert((acc + seq![item]) + (match parse_items(toks@, j as int + 1) {
                Ok(rest) => rest,
                Err(_) => seq![],
            }) =~= acc + (seq![item] + (match parse_items(toks@, j as int + 1) {
                Ok(rest) => rest,
                Err(_) => seq![],
            })));
            acc = acc + seq![item];
        }
        k = j + 1;
    }
}

} // verus!
