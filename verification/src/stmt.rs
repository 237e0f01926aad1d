//! The parser of statements, and of a source as a whole.
use vstd::prelude::*;
use vstd::string::StringExecFns;

use crate::ast::{
    annotations_view, named_args_view, opt_text, stmts_view, texts, Annotation, Expr, ExprKind,
    ExprView, Literal, NamedArg, QueryDef, Stmt, StmtKind, StmtView, VarDef, VarDefKind,
};
use crate::common::{ctrl, ident_part, into_stmt, keyword, new_line, only};
use crate::error::{opt_tokens_view, perrors_view, PError};
use crate::expr::{
    expr, expr_call, insert_named, named_arg, named_index, new_lines, pipeline, type_annotation,
    Arg,
};
use crate::grammar::{ahead, Taken};
use crate::lexer::token::{Token, TokenView};
use crate::log::{Log, LogView};
use crate::source_grammar::{self, ParsedView};
use crate::span::ParserSpan;
use crate::stream::TokenStream;

verus! {

/// What the parser makes of a source, with the errors that it found.
pub struct Parsed {
    pub ast: Option<Vec<Stmt>>,
    pub errors: Vec<PError>,
}

impl Parsed {
    pub open spec fn view(&self) -> ParsedView {
        ParsedView {
            ast: match self.ast {
                Some(ast) => Some(stmts_view(ast@)),
                None => None,
            },
            errors: perrors_view(self.errors@),
        }
    }
}

/// Takes the arguments of a header.
pub fn header_args(stream: &TokenStream, at: usize, log: &mut Log) -> (r: (usize, Vec<NamedArg>))
    requires
        stream.wf(),
        at <= stream.view().len(),
    ensures
        source_grammar::header_args(stream.view(), Seq::empty(), at as int, old(log).view()) == (
        Taken { found: named_args_view(r.1@), end: r.0 as int, log: final(log).view() }),
        at <= r.0 <= stream.view().len(),
{
    let mut given: Vec<NamedArg> = Vec::new();
    let mut end: usize = at;
    let ghost whole = source_grammar::header_args(
        stream.view(),
        Seq::empty(),
        at as int,
        log.view(),
    );
    assert(named_args_view(given@) =~= Seq::empty());
    loop
        invariant_except_break
            stream.wf(),
            at <= end <= stream.view().len(),
            whole == source_grammar::header_args(
                stream.view(),
                named_args_view(given@),
                end as int,
                log.view(),
            ),
        ensures
            at <= end <= stream.view().len(),
            whole == (Taken {
                found: named_args_view(given@),
                end: end as int,
                log: log.view(),
            }),
        decreases stream.view().len() - end,
    {
        let before: usize = log.emitted_len();
        match named_arg(stream, end, log) {
            Some((next, Arg::Named(name, value))) => {
                insert_named(&mut given, name, value);
                end = next;
            },
            _ => {
                log.rollback(before);
                break ;
            },
        }
    }
    (end, given)
}

/// Joins names with dots.
pub fn dotted(names: &Vec<String>) -> (text: String)
    ensures
        text@ == source_grammar::dotted(texts(names@)),
{
    let mut text = String::new();
    let ghost all = texts(names@);
    assert(text@ =~= source_grammar::dotted(all.take(0)));
    let mut i: usize = 0;
    while i < names.len()
        invariant
            i <= names.len(),
            all == texts(names@),
            text@ == source_grammar::dotted(all.take(i as int)),
        decreases names.len() - i,
    {
        proof {
            assert(all.take(i + 1).drop_last() =~= all.take(i as int));
        }
        if i > 0 {
            text.append(".");
        }
        text.append(names[i].as_str());
        proof {
            assert(text@ =~= source_grammar::dotted(all.take(i + 1)));
        }
        i = i + 1;
    }
    assert(all.take(all.len() as int) =~= all);
    text
}

/// The argument of that name.
pub fn value_of<'a>(args: &'a Vec<NamedArg>, name: &str) -> (r: Option<&'a Expr>)
    ensures
        match r {
            Some(e) => source_grammar::value_of(named_args_view(args@), name@) == Some(e.view()),
            None => source_grammar::value_of(named_args_view(args@), name@) is None,
        },
{
    let i: usize = named_index(args, &name.to_owned());
    if i < args.len() {
        Some(&args[i].value)
    } else {
        None
    }
}

/// Whether a header can have each of the arguments.
pub fn are_known(args: &Vec<NamedArg>) -> (r: bool)
    ensures
        r == forall|i: int|
            0 <= i < args@.len() ==> source_grammar::is_known(
                #[trigger] named_args_view(args@)[i].name,
            ),
{
    let version = "version".to_owned();
    let target = "target".to_owned();
    let mut i: usize = 0;
    while i < args.len()
        invariant
            i <= args.len(),
            version@ == "version"@,
            target@ == "target"@,
            forall|j: int|
                0 <= j < i ==> source_grammar::is_known(
                    #[trigger] named_args_view(args@)[j].name,
                ),
        decreases args.len() - i,
    {
        if !(args[i].name == version) && !(args[i].name == target) {
            assert(!source_grammar::is_known(named_args_view(args@)[i as int].name));
            return false;
        }
        i = i + 1;
    }
    true
}

/// Makes a header.
pub fn header(args: &Vec<NamedArg>, span: ParserSpan, log: &mut Log) -> (kind: StmtKind)
    ensures
        kind.view() == source_grammar::header(named_args_view(args@)),
        final(log).view() == source_grammar::check_header(
            named_args_view(args@),
            span.0,
            old(log).view(),
        ),
{
    let version = match value_of(args, "version") {
        Some(e) => match &e.kind {
            ExprKind::Literal(Literal::String(v)) => Some(v.clone()),
            _ => {
                log.emit(PError::custom(span, "version must be a string literal".to_owned()));
                None
            },
        },
        None => None,
    };
    let mut other: Vec<(String, String)> = Vec::new();
    match value_of(args, "target") {
        Some(e) => match &e.kind {
            ExprKind::Ident(names) => {
                other.push(("target".to_owned(), dotted(&names.path)));
            },
            _ => {
                log.emit(PError::custom(span, "target must be an identifier".to_owned()));
            },
        },
        None => {},
    }
    if !are_known(args) {
        log.emit(
            PError::custom(span, "unknown argument of the query definition".to_owned()),
        );
    }
    let def = QueryDef { version, other };
    proof {
        match source_grammar::target(named_args_view(args@)) {
            Some(t) => {
                assert(def.other_view() =~= seq![("target"@, t)]);
            },
            None => {
                assert(def.other_view() =~= Seq::empty());
            },
        }
    }
    StmtKind::QueryDef(def)
}

/// Takes the header of a query.
pub fn query_def(stream: &TokenStream, at: usize, log: &mut Log) -> (r: Option<(usize, Stmt)>)
    requires
        stream.wf(),
        at <= stream.view().len(),
    ensures
        ({
            let step = source_grammar::query_def(stream.view(), at as int, old(log).view());
            &&& match r {
                Some((end, found)) => step.hit == Some((end as int, found.view())) && ahead(
                    stream.view(),
                    at as int,
                    end as int,
                ),
                None => step.hit is None,
            }
            &&& final(log).view() == step.log
        }),
{
    let start: usize = new_lines(stream, at, log);
    let args_start: usize = match keyword(stream, start, "prql") {
        Ok(next) => next,
        Err(e) => {
            log.note(start, e.expected);
            return None;
        },
    };
    let (args_end, args) = header_args(stream, args_start, log);
    match new_line(stream, args_end) {
        Ok(end) => {
            let span = stream.span_since(at, end);
            let none: Vec<Annotation> = Vec::new();
            assert(annotations_view(none@) =~= Seq::empty());
            Some((end, into_stmt((none, header(&args, span, log)), span)))
        },
        Err(e) => {
            log.note(args_end, e.expected);
            None
        },
    }
}

/// Takes annotations.
#[verifier::spinoff_prover]
pub fn annotations(stream: &TokenStream, at: usize, log: &mut Log) -> (r: (usize, Vec<Annotation>))
    requires
        stream.wf(),
        at <= stream.view().len(),
    ensures
        source_grammar::annotations(stream.view(), at as int, old(log).view()) == (Taken {
            found: annotations_view(r.1@),
            end: r.0 as int,
            log: final(log).view(),
        }),
        at <= r.0 <= stream.view().len(),
{
    let mut found: Vec<Annotation> = Vec::new();
    let mut end: usize = at;
    let ghost whole = source_grammar::annotations(stream.view(), at as int, log.view());
    assert(annotations_view(found@) + whole.found =~= whole.found);
    loop
        invariant_except_break
            stream.wf(),
            at <= end <= stream.view().len(),
            ({
                let rest = source_grammar::annotations(stream.view(), end as int, log.view());
                whole == (Taken {
                    found: annotations_view(found@) + rest.found,
                    end: rest.end,
                    log: rest.log,
                })
            }),
        ensures
            at <= end <= stream.view().len(),
            whole == (Taken {
                found: annotations_view(found@),
                end: end as int,
                log: log.view(),
            }),
        decreases stream.view().len() - end,
    {
        let ghost taken = annotations_view(found@);
        assert(taken + Seq::<ExprView>::empty() =~= taken);
        if let Some(Token::Annotate) = stream.token(end) {
            let before: usize = log.emitted_len();
            match expr(stream, end + 1, log) {
                Some((expr_end, e)) => {
                    let next: usize = new_lines(stream, expr_end, log);
                    found.push(Annotation { expr: e });
                    proof {
                        let rest = source_grammar::annotations(
                            stream.view(),
                            next as int,
                            log.view(),
                        ).found;
                        assert(taken + (seq![e.view()] + rest) =~= annotations_view(found@)
                            + rest);
                    }
                    end = next;
                },
                None => {
                    log.rollback(before);
                    break ;
                },
            }
        } else {
            log.note(end, only(Token::Annotate));
            break ;
        }
    }
    (end, found)
}

/// Takes a definition that begins with its name.
pub fn let_def(stream: &TokenStream, at: usize, log: &mut Log) -> (r: Option<(usize, StmtKind)>)
    requires
        stream.wf(),
        at <= stream.view().len(),
    ensures
        ({
            let step = source_grammar::let_def(stream.view(), at as int, old(log).view());
            &&& match r {
                Some((end, found)) => step.hit == Some((end as int, found.view())) && ahead(
                    stream.view(),
                    at as int,
                    end as int,
                ),
                None => step.hit is None,
            }
            &&& final(log).view() == step.log
        }),
{
    let name_at: usize = match keyword(stream, at, "let") {
        Ok(next) => next,
        Err(e) => {
            log.note(at, e.expected);
            return None;
        },
    };
    let (name, name_end) = match ident_part(stream, name_at) {
        Ok(found) => found,
        Err(e) => {
            log.note(name_at, e.expected);
            return None;
        },
    };
    let (ty_end, ty_expr) = type_annotation(stream, name_end, log);
    match ctrl(stream, ty_end, '=') {
        Ok(start) => match expr_call(stream, start, log) {
            Some((end, value)) => {
                let def = VarDef { name, value, ty_expr, kind: VarDefKind::Let };
                Some((end, StmtKind::VarDef(def)))
            },
            None => None,
        },
        Err(e) => {
            log.note(ty_end, e.expected);
            None
        },
    }
}

/// Takes the name that a pipeline goes into.
pub fn into_name(stream: &TokenStream, at: usize, log: &mut Log) -> (r: (usize, Option<String>))
    requires
        at <= stream.view().len(),
    ensures
        source_grammar::into_name(stream.view(), at as int, old(log).view()) == (Taken {
            found: opt_text(r.1),
            end: r.0 as int,
            log: final(log).view(),
        }),
        at <= r.0 <= stream.view().len(),
{
    match keyword(stream, at, "into") {
        Ok(name_at) => match ident_part(stream, name_at) {
            Ok((name, end)) => (end, Some(name)),
            Err(e) => {
                log.note(name_at, e.expected);
                (at, None)
            },
        },
        Err(e) => {
            log.note(at, e.expected);
            (at, None)
        },
    }
}

/// Takes a pipeline, and the name that it goes into.
pub fn main_def(stream: &TokenStream, at: usize, log: &mut Log) -> (r: Option<(usize, StmtKind)>)
    requires
        stream.wf(),
        at <= stream.view().len(),
    ensures
        ({
            let step = source_grammar::main_def(stream.view(), at as int, old(log).view());
            &&& match r {
                Some((end, found)) => step.hit == Some((end as int, found.view())) && ahead(
                    stream.view(),
                    at as int,
                    end as int,
                ),
                None => step.hit is None,
            }
            &&& final(log).view() == step.log
        }),
{
    match pipeline(stream, at, log) {
        Some((value_end, value)) => {
            let (end, into) = into_name(stream, value_end, log);
            let kind = match into {
                Some(name) => StmtKind::VarDef(
                    VarDef { name, value, ty_expr: None, kind: VarDefKind::Into },
                ),
                None => StmtKind::Main(value),
            };
            Some((end, kind))
        },
        None => None,
    }
}

/// Takes a definition or a pipeline.
pub fn var_def(stream: &TokenStream, at: usize, log: &mut Log) -> (r: Option<(usize, StmtKind)>)
    requires
        stream.wf(),
        at <= stream.view().len(),
    ensures
        ({
            let step = source_grammar::var_def(stream.view(), at as int, old(log).view());
            &&& match r {
                Some((end, found)) => step.hit == Some((end as int, found.view())) && ahead(
                    stream.view(),
                    at as int,
                    end as int,
                ),
                None => step.hit is None,
            }
            &&& final(log).view() == step.log
        }),
{
    let before: usize = log.emitted_len();
    if let Some(found) = let_def(stream, at, log) {
        return Some(found);
    }
    log.rollback(before);
    main_def(stream, at, log)
}

/// Takes a statement with its annotations.
pub fn stmt(stream: &TokenStream, at: usize, log: &mut Log) -> (r: Option<(usize, Stmt)>)
    requires
        stream.wf(),
        at <= stream.view().len(),
    ensures
        ({
            let step = source_grammar::stmt(stream.view(), at as int, old(log).view());
            &&& match r {
                Some((end, found)) => step.hit == Some((end as int, found.view())) && ahead(
                    stream.view(),
                    at as int,
                    end as int,
                ),
                None => step.hit is None,
            }
            &&& final(log).view() == step.log
        }),
{
    let (start, notes) = annotations(stream, at, log);
    match var_def(stream, start, log) {
        Some((end, kind)) => Some(
            (end, into_stmt((notes, kind), stream.span_since(at, end))),
        ),
        None => None,
    }
}

/// Whether a line begins at `at`.
pub fn on_new_line(stream: &TokenStream, at: usize) -> (r: bool)
    ensures
        r == source_grammar::on_new_line(stream.view(), at as int),
{
    at == 0 || new_line(stream, at - 1).is_ok()
}

/// Takes statements.
#[verifier::spinoff_prover]
pub fn stmts(stream: &TokenStream, at: usize, log: &mut Log) -> (r: (usize, Vec<Stmt>))
    requires
        stream.wf(),
        at <= stream.view().len(),
    ensures
        source_grammar::stmts(stream.view(), at as int, old(log).view()) == (Taken {
            found: stmts_view(r.1@),
            end: r.0 as int,
            log: final(log).view(),
        }),
        at <= r.0 <= stream.view().len(),
{
    let mut found: Vec<Stmt> = Vec::new();
    let mut end: usize = at;
    let ghost whole = source_grammar::stmts(stream.view(), at as int, log.view());
    assert(stmts_view(found@) + whole.found =~= whole.found);
    loop
        invariant_except_break
            stream.wf(),
            at <= end <= stream.view().len(),
            ({
                let rest = source_grammar::stmts(stream.view(), end as int, log.view());
                whole == (Taken {
                    found: stmts_view(found@) + rest.found,
                    end: rest.end,
                    log: rest.log,
                })
            }),
        ensures
            at <= end <= stream.view().len(),
            whole == (Taken { found: stmts_view(found@), end: end as int, log: log.view() }),
        decreases stream.view().len() - end,
    {
        let ghost taken = stmts_view(found@);
        assert(taken + Seq::<StmtView>::empty() =~= taken);
        let start: usize = new_lines(stream, end, log);
        if !on_new_line(stream, start) {
            end = start;
            break ;
        }
        let before: usize = log.emitted_len();
        match stmt(stream, start, log) {
            Some((next, st)) => {
                found.push(st);
                proof {
                    let rest = source_grammar::stmts(stream.view(), next as int, log.view()).found;
                    assert(taken + (seq![st.view()] + rest) =~= stmts_view(found@) + rest);
                }
                end = next;
            },
            None => {
                log.rollback(before);
                end = start;
                break ;
            },
        }
    }
    (end, found)
}

fn end_of_input() -> (v: Vec<Option<Token>>)
    ensures
        opt_tokens_view(v@) == seq![None::<TokenView>],
{
    let mut v: Vec<Option<Token>> = Vec::new();
    v.push(None);
    assert(opt_tokens_view(v@) =~= seq![None::<TokenView>]);
    v
}

/// Parses a whole source.
pub fn source(stream: &TokenStream) -> (r: Parsed)
    requires
        stream.wf(),
    ensures
        r.view() == source_grammar::source(stream.view()),
{
    let mut log = Log::start();
    let mut ast: Vec<Stmt> = Vec::new();
    let mut start: usize = 0;
    match query_def(stream, 0, &mut log) {
        Some((end, head)) => {
            ast.push(head);
            start = end;
        },
        None => {
            log.rollback(0);
        },
    }
    let ghost head = stmts_view(ast@);
    let (end, mut body) = stmts(stream, start, &mut log);
    let ghost rest = stmts_view(body@);
    ast.append(&mut body);
    assert(stmts_view(ast@) =~= head + rest);
    proof {
        match source_grammar::query_def(stream.view(), 0, LogView::start()).hit {
            Some((_, first)) => {
                assert(head =~= seq![first]);
            },
            None => {
                assert(head + rest =~= rest);
            },
        }
    }
    if end == stream.len() {
        Parsed { ast: Some(ast), errors: log.into_emitted() }
    } else {
        log.note(end, end_of_input());
        Parsed { ast: None, errors: log.failure(stream) }
    }
}

/// Parses a source that is one expression.
pub fn single_expr(stream: &TokenStream) -> (r: Result<Expr, Vec<PError>>)
    requires
        stream.wf(),
    ensures
        match r {
            Ok(e) => source_grammar::single_expr(stream.view()) == Ok::<
                ExprView,
                Seq<crate::error::PErrorView>,
            >(e.view()),
            Err(errors) => source_grammar::single_expr(stream.view()) == Err::<
                ExprView,
                Seq<crate::error::PErrorView>,
            >(perrors_view(errors@)),
        },
{
    let mut log = Log::start();
    match expr_call(stream, 0, &mut log) {
        Some((end, e)) => if end != stream.len() {
            log.note(end, end_of_input());
            Err(log.failure(stream))
        } else if log.emitted_len() > 0 {
            Err(log.into_emitted())
        } else {
            Ok(e)
        },
        None => Err(log.failure(stream)),
    }
}

} // verus!
