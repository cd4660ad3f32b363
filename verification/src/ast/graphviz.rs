//! Drawing the syntax tree as a Graphviz graph.
use vstd::prelude::*;
use crate::ast::expr::{exprs_view, lemma_exprs_view_len, Expr, ExprView};
use crate::ast::printer::{display_number, number_display};
use crate::ast::stmt::{lemma_stmts_view_len, stmts_view, tokens_view, Stmt, StmtView};
use crate::parser::{opt_stmt_view, opt_stmts_view};
use crate::lexer::token::{Literal, LiteralView, Token, TokenType, TokenView};
use crate::text::{chars_of, decimal, decimal_string, push_str, same_text, string_of};

verus! {

/// Text as it can stand in an HTML label: the comparison operators escaped.
pub open spec fn fixed_text(content: Seq<char>) -> Seq<char> {
    if content == "<"@ {
        "&lt;"@
    } else if content == ">"@ {
        "&gt;"@
    } else if content == "<="@ {
        "&lt;="@
    } else if content == ">="@ {
        "&gt;="@
    } else {
        content
    }
}

/// A table row holding `content`, inside the tag `mode` if there is one.
pub open spec fn row_text(content: Seq<char>, mode: Option<Seq<char>>) -> Seq<char> {
    let start = "\t\t\t<tr> <td align=\"center\">"@;
    let start = match mode {
        Some(m) => start + "<"@ + m + ">"@,
        None => start,
    };
    let end = match mode {
        Some(m) => "</"@ + m + ">"@,
        None => Seq::empty(),
    };
    start + fixed_text(content) + end + "</td> </tr>\n"@
}

/// Plain rows, one for each of `others`.
pub open spec fn rows_text(others: Seq<Seq<char>>) -> Seq<char>
    decreases others.len(),
{
    if others.len() == 0 {
        Seq::empty()
    } else {
        rows_text(others.drop_last()) + row_text(others.last(), None)
    }
}

/// The texts of a list of strings.
pub open spec fn strs(v: Seq<&str>) -> Seq<Seq<char>> {
    v.map_values(|x: &str| x@)
}

/// The name and colour lines that open node `n`.
pub open spec fn node_head(n: nat, color: Seq<char>) -> Seq<char> {
    "\tN"@ + decimal(n) + " [\n"@ + "\t\tcolor=\""@ + color + "\"\n"@
}

/// Node `n` drawn as a table: a bold title, an italic subtitle and plain rows.
pub open spec fn node_text(n: nat, color: Seq<char>, bold: Seq<char>, italic: Seq<char>, others: Seq<Seq<char>>) -> Seq<char> {
    node_head(n, color)
        + "\t\tlabel=<<table border=\"0\" cellborder=\"1\" cellspacing=\"0\" cellpadding=\"4\">\n"@
        + row_text(bold, Some("b"@)) + row_text(italic, Some("i"@)) + rows_text(others)
        + "\t\t</table>>\n"@ + "\t\tshape=plain\n"@ + "\t]\n"@
}

/// Node `n` drawn with a plain label.
pub open spec fn auxiliary_text(n: nat, color: Seq<char>, content: Seq<char>) -> Seq<char> {
    node_head(n, color) + "\t\tlabel=\""@ + content + "\"\n"@ + "\t]\n"@
}

/// The font settings put before each statement's graph.
pub open spec fn template_text() -> Seq<char> {
    let fontname = "\tfontname="@ + "\"Helvetica,Arial,sans-serif\""@ + "\n"@;
    let node = "\tnode [\n\t\tstyle=filled\n\t\tshape=rect\n\t"@ + fontname + "\t]\n"@;
    let edge = "\tedge [\n\t"@ + fontname + "\t]\n"@;
    fontname + node + edge
}

/// `content` with `<`, `>`, `<=` and `>=` escaped for an HTML label.
pub fn fix_content(content: &str) -> (s: String)
    ensures
        s@ == fixed_text(content@),
{
    if same_text(content, "<") {
        "&lt;".to_owned()
    } else if same_text(content, ">") {
        "&gt;".to_owned()
    } else if same_text(content, "<=") {
        "&lt;=".to_owned()
    } else if same_text(content, ">=") {
        "&gt;=".to_owned()
    } else {
        content.to_owned()
    }
}

/// A table row holding `content`, inside the tag `mode` if there is one.
pub fn define_row(content: &str, mode: Option<&str>) -> (s: String)
    ensures
        s@ == row_text(content@, match mode {
            Some(m) => Some(m@),
            None => None,
        }),
{
    let mut start = String::new();
    push_str(&mut start, "\t\t\t<tr> <td align=\"center\">");
    if let Some(m) = mode {
        push_str(&mut start, "<");
        push_str(&mut start, m);
        push_str(&mut start, ">");
    }
    let mut end = String::new();
    if let Some(m) = mode {
        push_str(&mut end, "</");
        push_str(&mut end, m);
        push_str(&mut end, ">");
    }
    push_str(&mut end, "</td> </tr>\n");
    let fixed = fix_content(content);
    let mut s = start;
    push_str(&mut s, fixed.as_str());
    push_str(&mut s, end.as_str());
    let ghost mv = match mode {
        Some(m) => Some(m@),
        None => None::<Seq<char>>,
    };
    assert(s@ =~= row_text(content@, mv));
    s
}

fn push_head(s: &mut String, node_num: usize, color: &str)
    ensures
        final(s)@ == old(s)@ + node_head(node_num as nat, color@),
{
    let ghost o = s@;
    push_str(s, "\tN");
    let digits = decimal_string(node_num);
    push_str(s, digits.as_str());
    push_str(s, " [\n");
    push_str(s, "\t\tcolor=\"");
    push_str(s, color);
    push_str(s, "\"\n");
    assert(s@ =~= o + node_head(node_num as nat, color@));
}

/// Node `node_num` drawn as a table with a bold title, an italic subtitle and
/// a plain row for each of `others`.
pub fn define_node(node_num: usize, color: &str, bold: &str, italic: &str, others: Vec<&str>) -> (s: String)
    ensures
        s@ == node_text(node_num as nat, color@, bold@, italic@, strs(others@)),
{
    let mut s = String::new();
    push_head(&mut s, node_num, color);
    push_str(&mut s, "\t\tlabel=<<table border=\"0\" cellborder=\"1\" cellspacing=\"0\" cellpadding=\"4\">\n");
    let bold_row = define_row(bold, Some("b"));
    push_str(&mut s, bold_row.as_str());
    let em_row = define_row(italic, Some("i"));
    push_str(&mut s, em_row.as_str());
    let ghost before = s@;
    let mut i: usize = 0;
    while i < others.len()
        invariant
            i <= others.len(),
            s@ == before + rows_text(strs(others@.subrange(0, i as int))),
        decreases others.len() - i,
    {
        let row = define_row(others[i], None);
        push_str(&mut s, row.as_str());
        proof {
            let sub = others@.subrange(0, i + 1);
            assert(strs(sub).drop_last() =~= strs(others@.subrange(0, i as int)));
            assert(strs(sub).last() == others@[i as int]@);
        }
        i = i + 1;
    }
    assert(others@.subrange(0, others.len() as int) =~= others@);
    push_str(&mut s, "\t\t</table>>\n");
    push_str(&mut s, "\t\tshape=plain\n");
    push_str(&mut s, "\t]\n");
    assert(s@ =~= node_text(node_num as nat, color@, bold@, italic@, strs(others@)));
    s
}

/// Node `node_num` drawn with the plain label `content`.
pub fn auxiliary_node(node_num: usize, color: &str, content: &str) -> (s: String)
    ensures
        s@ == auxiliary_text(node_num as nat, color@, content@),
{
    let mut s = String::new();
    push_head(&mut s, node_num, color);
    push_str(&mut s, "\t\tlabel=\"");
    push_str(&mut s, content);
    push_str(&mut s, "\"\n");
    push_str(&mut s, "\t]\n");
    assert(s@ =~= auxiliary_text(node_num as nat, color@, content@));
    s
}

/// Builds the Graphviz text of a program, numbering its nodes from 1.
pub struct AstVis {
    graph: String,
    current_node: usize,
}

impl AstVis {
    /// The text built so far.
    pub closed spec fn spec_graph(&self) -> Seq<char> {
        self.graph@
    }

    /// The number of the last node drawn (0 before the first).
    pub closed spec fn spec_node(&self) -> nat {
        self.current_node as nat
    }

    /// An empty graph.
    pub fn new() -> (v: AstVis)
        ensures
            v.spec_graph() == Seq::<char>::empty(),
            v.spec_node() == 0,
    {
        AstVis { graph: String::new(), current_node: 0 }
    }

    /// The text built so far.
    pub fn graph(&self) -> (s: &str)
        ensures
            s@ == self.spec_graph(),
    {
        self.graph.as_str()
    }

    /// The number of the last node drawn.
    pub fn current_node(&self) -> (n: usize)
        ensures
            n == self.spec_node(),
    {
        self.current_node
    }

    /// Appends the font settings.
    pub fn put_template(&mut self)
        ensures
            final(self).spec_graph() == old(self).spec_graph() + template_text(),
            final(self).spec_node() == old(self).spec_node(),
    {
        let ghost o = self.graph@;
        let mut fontname = String::new();
        push_str(&mut fontname, "\tfontname=");
        push_str(&mut fontname, "\"Helvetica,Arial,sans-serif\"");
        push_str(&mut fontname, "\n");
        push_str(&mut self.graph, fontname.as_str());
        push_str(&mut self.graph, "\tnode [\n\t\tstyle=filled\n\t\tshape=rect\n\t");
        push_str(&mut self.graph, fontname.as_str());
        push_str(&mut self.graph, "\t]\n");
        push_str(&mut self.graph, "\tedge [\n\t");
        push_str(&mut self.graph, fontname.as_str());
        push_str(&mut self.graph, "\t]\n");
        assert(self.graph@ =~= o + template_text());
    }

    /// Appends the red node that marks statement `count` as one that failed to parse.
    pub fn put_none(&mut self, count: usize)
        ensures
            final(self).spec_graph() == old(self).spec_graph() + "\tNoneStmtLine"@ + decimal(count as nat)
                + " [color=\"#f44336\" style=filled]\n"@,
            final(self).spec_node() == old(self).spec_node(),
    {
        let ghost o = self.graph@;
        push_str(&mut self.graph, "\tNoneStmtLine");
        let digits = decimal_string(count);
        push_str(&mut self.graph, digits.as_str());
        push_str(&mut self.graph, " [color=\"#f44336\" style=filled]\n");
    }

    /// Opens the subgraph of statement `count`.
    pub fn start_stmt(&mut self, count: usize)
        ensures
            final(self).spec_graph() == old(self).spec_graph() + "subgraph stmt"@ + decimal(count as nat) + " {\n"@,
            final(self).spec_node() == old(self).spec_node(),
    {
        push_str(&mut self.graph, "subgraph stmt");
        let digits = decimal_string(count);
        push_str(&mut self.graph, digits.as_str());
        push_str(&mut self.graph, " {\n");
    }

    /// Opens the graph of the program.
    pub fn start_program(&mut self)
        ensures
            final(self).spec_graph() == old(self).spec_graph() + "digraph Program {\n"@,
            final(self).spec_node() == old(self).spec_node(),
    {
        push_str(&mut self.graph, "digraph Program {\n");
    }

    /// Closes the innermost open graph.
    pub fn end_graph(&mut self)
        ensures
            final(self).spec_graph() == old(self).spec_graph() + "}\n"@,
            final(self).spec_node() == old(self).spec_node(),
    {
        push_str(&mut self.graph, "}\n");
    }

    /// Moves on to the next node number.
    pub fn increment_node_count(&mut self)
        requires
            old(self).spec_node() < usize::MAX,
        ensures
            final(self).spec_node() == old(self).spec_node() + 1,
            final(self).spec_graph() == old(self).spec_graph(),
    {
        self.current_node = self.current_node + 1;
    }

    fn table_node(&mut self, color: &str, bold: &str, italic: &str, info: Option<Vec<&str>>) -> (s: String)
        requires
            old(self).spec_node() < usize::MAX,
        ensures
            final(self).spec_node() == old(self).spec_node() + 1,
            final(self).spec_graph() == old(self).spec_graph(),
            s@ == node_text(final(self).spec_node(), color@, bold@, italic@, match info {
                Some(v) => strs(v@),
                None => Seq::empty(),
            }),
    {
        let others = match info {
            Some(v) => v,
            None => Vec::new(),
        };
        self.increment_node_count();
        define_node(self.current_node, color, bold, italic, others)
    }

    /// A new expression node with subtitle `italic` and the rows `info`.
    pub fn expr_node(&mut self, italic: &str, info: Option<Vec<&str>>) -> (s: String)
        requires
            old(self).spec_node() < usize::MAX,
        ensures
            final(self).spec_node() == old(self).spec_node() + 1,
            final(self).spec_graph() == old(self).spec_graph(),
            s@ == node_text(final(self).spec_node(), "#9fc5e8"@, "Expr"@, italic@, match info {
                Some(v) => strs(v@),
                None => Seq::empty(),
            }),
    {
        self.table_node("#9fc5e8", "Expr", italic, info)
    }

    /// A new statement node with subtitle `italic` and the rows `info`.
    pub fn stmt_node(&mut self, italic: &str, info: Option<Vec<&str>>) -> (s: String)
        requires
            old(self).spec_node() < usize::MAX,
        ensures
            final(self).spec_node() == old(self).spec_node() + 1,
            final(self).spec_graph() == old(self).spec_graph(),
            s@ == node_text(final(self).spec_node(), "#93c47d"@, "Stmt"@, italic@, match info {
                Some(v) => strs(v@),
                None => Seq::empty(),
            }),
    {
        self.table_node("#93c47d", "Stmt", italic, info)
    }

    /// A new token node with subtitle `italic` and the rows `info`.
    pub fn token_node(&mut self, italic: &str, info: Option<Vec<&str>>) -> (s: String)
        requires
            old(self).spec_node() < usize::MAX,
        ensures
            final(self).spec_node() == old(self).spec_node() + 1,
            final(self).spec_graph() == old(self).spec_graph(),
            s@ == node_text(final(self).spec_node(), "#c27ba0"@, "Token"@, italic@, match info {
                Some(v) => strs(v@),
                None => Seq::empty(),
            }),
    {
        self.table_node("#c27ba0", "Token", italic, info)
    }

    /// A new literal node with subtitle `italic` and the rows `info`.
    pub fn literal_node(&mut self, italic: &str, info: Option<Vec<&str>>) -> (s: String)
        requires
            old(self).spec_node() < usize::MAX,
        ensures
            final(self).spec_node() == old(self).spec_node() + 1,
            final(self).spec_graph() == old(self).spec_graph(),
            s@ == node_text(final(self).spec_node(), "#ffcc60"@, "Literal"@, italic@, match info {
                Some(v) => strs(v@),
                None => Seq::empty(),
            }),
    {
        self.table_node("#ffcc60", "Literal", italic, info)
    }

    fn plain_node(&mut self, color: &str, content: &str) -> (s: String)
        requires
            old(self).spec_node() < usize::MAX,
        ensures
            final(self).spec_node() == old(self).spec_node() + 1,
            final(self).spec_graph() == old(self).spec_graph(),
            s@ == auxiliary_text(final(self).spec_node(), color@, content@),
    {
        self.increment_node_count();
        auxiliary_node(self.current_node, color, content)
    }

    /// A new node that gathers the arguments of a call.
    pub fn arguments_node(&mut self) -> (s: String)
        requires
            old(self).spec_node() < usize::MAX,
        ensures
            final(self).spec_node() == old(self).spec_node() + 1,
            final(self).spec_graph() == old(self).spec_graph(),
            s@ == auxiliary_text(final(self).spec_node(), "#a88f85"@, "Arguments"@),
    {
        self.plain_node("#a88f85", "Arguments")
    }

    /// A new node that gathers the parameters of a function.
    pub fn parameters_node(&mut self) -> (s: String)
        requires
            old(self).spec_node() < usize::MAX,
        ensures
            final(self).spec_node() == old(self).spec_node() + 1,
            final(self).spec_graph() == old(self).spec_graph(),
            s@ == auxiliary_text(final(self).spec_node(), "#eee5de"@, "Parameters"@),
    {
        self.plain_node("#eee5de", "Parameters")
    }

    /// A new node that gathers the statements of a function's body.
    pub fn function_body_node(&mut self) -> (s: String)
        requires
            old(self).spec_node() < usize::MAX,
        ensures
            final(self).spec_node() == old(self).spec_node() + 1,
            final(self).spec_graph() == old(self).spec_graph(),
            s@ == auxiliary_text(final(self).spec_node(), "#6ca1a2"@, "Function body"@),
    {
        self.plain_node("#6ca1a2", "Function body")
    }

    /// A new node that gathers the methods of a class.
    pub fn methods_node(&mut self) -> (s: String)
        requires
            old(self).spec_node() < usize::MAX,
        ensures
            final(self).spec_node() == old(self).spec_node() + 1,
            final(self).spec_graph() == old(self).spec_graph(),
            s@ == auxiliary_text(final(self).spec_node(), "#ffcde0"@, "Methods"@),
    {
        self.plain_node("#ffcde0", "Methods")
    }
}

/// The name of a token kind, as `{:#?}` writes it.
pub open spec fn type_text(k: TokenType) -> Seq<char> {
    match k {
        TokenType::LeftParen => "LeftParen"@,
        TokenType::RightParen => "RightParen"@,
        TokenType::LeftBrace => "LeftBrace"@,
        TokenType::RightBrace => "RightBrace"@,
        TokenType::Comma => "Comma"@,
        TokenType::Dot => "Dot"@,
        TokenType::Minus => "Minus"@,
        TokenType::Plus => "Plus"@,
        TokenType::Semicolon => "Semicolon"@,
        TokenType::Slash => "Slash"@,
        TokenType::Star => "Star"@,
        TokenType::Bang => "Bang"@,
        TokenType::BangEqual => "BangEqual"@,
        TokenType::Equal => "Equal"@,
        TokenType::EqualEqual => "EqualEqual"@,
        TokenType::Greater => "Greater"@,
        TokenType::GreaterEqual => "GreaterEqual"@,
        TokenType::Less => "Less"@,
        TokenType::LessEqual => "LessEqual"@,
        TokenType::Identifier => "Identifier"@,
        TokenType::String => "String"@,
        TokenType::Number => "Number"@,
        TokenType::And => "And"@,
        TokenType::Class => "Class"@,
        TokenType::Else => "Else"@,
        TokenType::False => "False"@,
        TokenType::Fun => "Fun"@,
        TokenType::For => "For"@,
        TokenType::If => "If"@,
        TokenType::Nil => "Nil"@,
        TokenType::Or => "Or"@,
        TokenType::Print => "Print"@,
        TokenType::Return => "Return"@,
        TokenType::Super => "Super"@,
        TokenType::This => "This"@,
        TokenType::True => "True"@,
        TokenType::Var => "Var"@,
        TokenType::While => "While"@,
        TokenType::Eof => "Eof"@,
    }
}

/// The name of a token kind.
pub fn kind_name(k: TokenType) -> (s: &'static str)
    ensures
        s@ == type_text(k),
{
    match k {
        TokenType::LeftParen => "LeftParen",
        TokenType::RightParen => "RightParen",
        TokenType::LeftBrace => "LeftBrace",
        TokenType::RightBrace => "RightBrace",
        TokenType::Comma => "Comma",
        TokenType::Dot => "Dot",
        TokenType::Minus => "Minus",
        TokenType::Plus => "Plus",
        TokenType::Semicolon => "Semicolon",
        TokenType::Slash => "Slash",
        TokenType::Star => "Star",
        TokenType::Bang => "Bang",
        TokenType::BangEqual => "BangEqual",
        TokenType::Equal => "Equal",
        TokenType::EqualEqual => "EqualEqual",
        TokenType::Greater => "Greater",
        TokenType::GreaterEqual => "GreaterEqual",
        TokenType::Less => "Less",
        TokenType::LessEqual => "LessEqual",
        TokenType::Identifier => "Identifier",
        TokenType::String => "String",
        TokenType::Number => "Number",
        TokenType::And => "And",
        TokenType::Class => "Class",
        TokenType::Else => "Else",
        TokenType::False => "False",
        TokenType::Fun => "Fun",
        TokenType::For => "For",
        TokenType::If => "If",
        TokenType::Nil => "Nil",
        TokenType::Or => "Or",
        TokenType::Print => "Print",
        TokenType::Return => "Return",
        TokenType::Super => "Super",
        TokenType::This => "This",
        TokenType::True => "True",
        TokenType::Var => "Var",
        TokenType::While => "While",
        TokenType::Eof => "Eof",
    }
}

/// The edge from node `a` to node `b`.
pub open spec fn edge_text(a: nat, b: nat) -> Seq<char> {
    "\tN"@ + decimal(a) + " -> N"@ + decimal(b) + "\n"@
}

/// The edges from node `a` to nodes `b` and `c`.
pub open spec fn edge2_text(a: nat, b: nat, c: nat) -> Seq<char> {
    "\tN"@ + decimal(a) + " -> {N"@ + decimal(b) + ", N"@ + decimal(c) + "}\n"@
}

/// The edges from node `a` to nodes `b`, `c` and `d`.
pub open spec fn edge3_text(a: nat, b: nat, c: nat, d: nat) -> Seq<char> {
    "\tN"@ + decimal(a) + " -> {N"@ + decimal(b) + ", N"@ + decimal(c) + ", N"@ + decimal(d) + "}\n"@
}

/// The edges from node `from` to each of `to`.
pub open spec fn links_text(from: nat, to: Seq<nat>) -> Seq<char>
    decreases to.len(),
{
    if to.len() == 0 {
        Seq::empty()
    } else {
        links_text(from, to.drop_last()) + edge_text(from, to.last())
    }
}

/// The edges from node `from` to nodes `start + 1` to `start + k`.
pub open spec fn range_links_text(from: nat, start: nat, k: nat) -> Seq<char>
    decreases k,
{
    if k == 0 {
        Seq::empty()
    } else {
        range_links_text(from, start, (k - 1) as nat) + edge_text(from, start + k)
    }
}

/// Expression node `n`.
pub open spec fn expr_box(n: nat, italic: Seq<char>, rows: Seq<Seq<char>>) -> Seq<char> {
    node_text(n, "#9fc5e8"@, "Expr"@, italic, rows)
}

/// Statement node `n`.
pub open spec fn stmt_box(n: nat, italic: Seq<char>, rows: Seq<Seq<char>>) -> Seq<char> {
    node_text(n, "#93c47d"@, "Stmt"@, italic, rows)
}

/// Token node `n` for `t`: its kind and its text.
pub open spec fn token_box(n: nat, t: TokenView) -> Seq<char> {
    node_text(n, "#c27ba0"@, "Token"@, type_text(t.kind), seq![t.lexeme])
}

/// What a literal node says of a literal: its kind, and its value with a
/// string cut to its first 12 characters.
pub open spec fn literal_info(l: LiteralView) -> (Seq<char>, Seq<char>) {
    match l {
        LiteralView::Bool(b) => ("Bool"@, if b { "true"@ } else { "false"@ }),
        LiteralView::Number(t) => ("Number"@, number_display(t)),
        LiteralView::Str(s) => ("String"@, if s.len() > 12 { s.subrange(0, 12) } else { s }),
        LiteralView::Nil => ("None"@, "nil"@),
    }
}

/// Literal node `n` for `l`.
pub open spec fn literal_box(n: nat, l: LiteralView) -> Seq<char> {
    node_text(n, "#ffcc60"@, "Literal"@, literal_info(l).0, seq![literal_info(l).1])
}

/// The graph of an expression drawn after node `c`, and the last node number
/// then used; the expression's own node is `c + 1`.
pub open spec fn gv_expr(e: ExprView, c: nat) -> (Seq<char>, nat)
    decreases e, 1nat,
{
    let n = c + 1;
    match e {
        ExprView::Assign(name, v) => {
            let a = gv_expr(*v, c + 2);
            (expr_box(n, "Assign"@, seq!["="@]) + token_box(c + 2, name) + edge_text(n, c + 2) + a.0
                + edge_text(n, c + 3), a.1)
        }
        ExprView::Binary(l, op, r) => {
            let a = gv_expr(*l, n);
            let b = gv_expr(*r, a.1);
            (expr_box(n, "Binary"@, seq![op.lexeme]) + a.0 + b.0 + edge2_text(n, n + 1, a.1 + 1), b.1)
        }
        ExprView::Call(callee, _, args) => {
            proof {
                assert(decreases_to!(e => e->Call_2));
            }
            let a = gv_expr(*callee, c + 2);
            let g = gv_args(args, a.1);
            (expr_box(n, "Call"@, Seq::empty()) + auxiliary_text(c + 2, "#a88f85"@, "Arguments"@) + a.0
                + edge2_text(n, c + 2, c + 3) + g.0 + links_text(c + 2, g.1), g.2)
        }
        ExprView::Get(o, name) => {
            let a = gv_expr(*o, c + 2);
            (expr_box(n, "Get"@, seq!["."@]) + token_box(c + 2, name) + edge_text(n, c + 2) + a.0
                + edge_text(n, c + 3), a.1)
        }
        ExprView::Grouping(g) => {
            let a = gv_expr(*g, n);
            (expr_box(n, "Grouping"@, seq!["()"@]) + a.0 + edge_text(n, n + 1), a.1)
        }
        ExprView::LiteralExpr(l) => (literal_box(n, l), n),
        ExprView::Logical(l, op, r) => {
            let a = gv_expr(*l, n);
            let b = gv_expr(*r, a.1);
            (expr_box(n, "Logical"@, seq![op.lexeme]) + a.0 + b.0 + edge2_text(n, n + 1, a.1 + 1), b.1)
        }
        ExprView::Unary(op, r) => {
            let a = gv_expr(*r, n);
            (expr_box(n, "Unary"@, seq![op.lexeme]) + a.0 + edge_text(n, n + 1), a.1)
        }
        ExprView::Variable(name) => {
            (expr_box(n, "Variable"@, Seq::empty()) + token_box(c + 2, name) + edge_text(n, c + 2), c + 2)
        }
        ExprView::SetProperty(o, name, v) => {
            let a = gv_expr(*o, c + 2);
            let b = gv_expr(*v, a.1);
            (expr_box(n, "Set"@, seq!["="@]) + token_box(c + 2, name) + edge_text(n, c + 2) + a.0
                + edge_text(n, c + 3) + b.0 + edge_text(n, a.1 + 1), b.1)
        }
        ExprView::Super(_, m) => {
            (expr_box(n, "Super"@, Seq::empty()) + token_box(c + 2, m) + edge_text(n, c + 2), c + 2)
        }
        ExprView::This(_) => (expr_box(n, "This"@, Seq::empty()), n),
    }
}

/// The graphs of a list of expressions drawn one after the other from `c`:
/// the text, the numbers of their nodes, and the last node number used.
pub open spec fn gv_args(s: Seq<ExprView>, c: nat) -> (Seq<char>, Seq<nat>, nat)
    decreases s, 0nat,
{
    if s.len() == 0 {
        (Seq::empty(), Seq::empty(), c)
    } else {
        let g = gv_args(s.drop_last(), c);
        let a = gv_expr(s.last(), g.2);
        (g.0 + a.0, g.1.push(g.2 + 1), a.1)
    }
}

/// Token nodes for parameters, numbered from `start + 1`.
pub open spec fn params_boxes(ps: Seq<TokenView>, start: nat) -> Seq<char>
    decreases ps.len(),
{
    if ps.len() == 0 {
        Seq::empty()
    } else {
        params_boxes(ps.drop_last(), start) + token_box(start + ps.len(), ps.last())
    }
}

/// The graph of a statement drawn after node `c`, and the last node number
/// then used; the statement's own node is `c + 1`.
pub open spec fn gv_stmt(s: StmtView, c: nat) -> (Seq<char>, nat)
    decreases s, 1nat,
{
    let n = c + 1;
    match s {
        StmtView::Block(b) => {
            proof {
                assert(decreases_to!(s => s->Block_0));
            }
            let g = gv_stmts(b, n);
            (stmt_box(n, "Block"@, Seq::empty()) + g.0 + links_text(n, g.1), g.2)
        }
        StmtView::Class(name, sup, ms) => {
            proof {
                assert(decreases_to!(s => s->Class_2));
            }
            let root = stmt_box(n, "Class"@, if sup is None { seq!["class"@] } else { seq!["class"@, "<"@] });
            let head = root + token_box(c + 2, name) + auxiliary_text(c + 3, "#ffcde0"@, "Methods"@);
            let base = match sup {
                None => (head + edge2_text(n, c + 2, c + 3), c + 3),
                Some(x) => {
                    let a = gv_expr(x, c + 3);
                    (head + a.0 + edge3_text(n, c + 2, c + 3, c + 4), a.1)
                }
            };
            let g = gv_stmts(ms, base.1);
            (base.0 + g.0 + links_text(c + 3, g.1), g.2)
        }
        StmtView::Expression(e) => {
            let a = gv_expr(e, n);
            (stmt_box(n, "Expression"@, seq![";"@]) + a.0 + edge_text(n, n + 1), a.1)
        }
        StmtView::Function(name, ps, body) => {
            proof {
                assert(decreases_to!(s => s->Function_2));
            }
            let base = stmt_box(n, "Function"@, seq!["fun"@]) + token_box(c + 2, name)
                + auxiliary_text(c + 3, "#eee5de"@, "Parameters"@)
                + auxiliary_text(c + 4, "#6ca1a2"@, "Function body"@) + edge3_text(n, c + 2, c + 3, c + 4);
            let params = params_boxes(ps, c + 4) + range_links_text(c + 3, c + 4, ps.len());
            let g = gv_stmts(body, c + 4 + ps.len());
            (base + params + g.0 + links_text(c + 4, g.1), g.2)
        }
        StmtView::If(cond, t, e) => {
            let root = stmt_box(n, "If"@, if e is None { seq!["if"@] } else { seq!["if-else"@] });
            let a = gv_expr(cond, n);
            let b = gv_stmt(*t, a.1);
            match e {
                None => (root + a.0 + b.0 + edge2_text(n, n + 1, a.1 + 1), b.1),
                Some(eb) => {
                    let d = gv_stmt(*eb, b.1);
                    (root + a.0 + b.0 + d.0 + edge3_text(n, n + 1, a.1 + 1, b.1 + 1), d.1)
                }
            }
        }
        StmtView::Print(e) => {
            let a = gv_expr(e, n);
            (stmt_box(n, "Print"@, Seq::empty()) + a.0 + edge_text(n, n + 1), a.1)
        }
        StmtView::Return(_, v) => {
            let a = gv_expr(v, n);
            (stmt_box(n, "Return"@, Seq::empty()) + a.0 + edge_text(n, n + 1), a.1)
        }
        StmtView::Var(name, init) => {
            let a = gv_expr(init, c + 2);
            (stmt_box(n, "Var"@, seq!["var"@, "="@]) + token_box(c + 2, name) + a.0 + edge2_text(n, c + 2, c + 3), a.1)
        }
        StmtView::While(cond, b) => {
            let a = gv_expr(cond, n);
            let d = gv_stmt(*b, a.1);
            (stmt_box(n, "While"@, Seq::empty()) + a.0 + d.0 + edge2_text(n, n + 1, a.1 + 1), d.1)
        }
    }
}

/// The graphs of a list of statements drawn one after the other from `c`.
pub open spec fn gv_stmts(s: Seq<StmtView>, c: nat) -> (Seq<char>, Seq<nat>, nat)
    decreases s, 0nat,
{
    if s.len() == 0 {
        (Seq::empty(), Seq::empty(), c)
    } else {
        let g = gv_stmts(s.drop_last(), c);
        let a = gv_stmt(s.last(), g.2);
        (g.0 + a.0, g.1.push(g.2 + 1), a.1)
    }
}

/// How many boxes the graph of an expression has: one for the expression
/// and one for each name token or list heading it shows, with those of its
/// parts.
pub open spec fn expr_nodes(e: ExprView) -> nat
    decreases e, 1nat,
{
    match e {
        ExprView::Assign(_, v) => 2 + expr_nodes(*v),
        ExprView::Binary(l, _, r) => 1 + expr_nodes(*l) + expr_nodes(*r),
        ExprView::Call(callee, _, args) => {
            proof {
                assert(decreases_to!(e => e->Call_2));
            }
            2 + expr_nodes(*callee) + args_nodes(args)
        }
        ExprView::Get(o, _) => 2 + expr_nodes(*o),
        ExprView::Grouping(g) => 1 + expr_nodes(*g),
        ExprView::LiteralExpr(_) => 1,
        ExprView::Logical(l, _, r) => 1 + expr_nodes(*l) + expr_nodes(*r),
        ExprView::Unary(_, r) => 1 + expr_nodes(*r),
        ExprView::Variable(_) => 2,
        ExprView::SetProperty(o, _, v) => 2 + expr_nodes(*o) + expr_nodes(*v),
        ExprView::Super(_, _) => 2,
        ExprView::This(_) => 1,
    }
}

/// How many boxes the graphs of a list of expressions have.
pub open spec fn args_nodes(s: Seq<ExprView>) -> nat
    decreases s, 0nat,
{
    if s.len() == 0 { 0 } else { args_nodes(s.drop_last()) + expr_nodes(s.last()) }
}

/// How many boxes the graph of a statement has.
pub open spec fn stmt_nodes(s: StmtView) -> nat
    decreases s, 1nat,
{
    match s {
        StmtView::Block(b) => {
            proof {
                assert(decreases_to!(s => s->Block_0));
            }
            1 + stmts_nodes(b)
        }
        StmtView::Class(_, sup, ms) => {
            proof {
                assert(decreases_to!(s => s->Class_2));
            }
            3 + match sup {
                None => 0nat,
                Some(x) => expr_nodes(x),
            } + stmts_nodes(ms)
        }
        StmtView::Expression(e) => 1 + expr_nodes(e),
        StmtView::Function(_, ps, body) => {
            proof {
                assert(decreases_to!(s => s->Function_2));
            }
            4 + ps.len() + stmts_nodes(body)
        }
        StmtView::If(cond, t, e) => 1 + expr_nodes(cond) + stmt_nodes(*t) + match e {
            None => 0nat,
            Some(eb) => stmt_nodes(*eb),
        },
        StmtView::Print(e) => 1 + expr_nodes(e),
        StmtView::Return(_, v) => 1 + expr_nodes(v),
        StmtView::Var(_, init) => 2 + expr_nodes(init),
        StmtView::While(cond, b) => 1 + expr_nodes(cond) + stmt_nodes(*b),
    }
}

/// How many boxes the graphs of a list of statements have.
pub open spec fn stmts_nodes(s: Seq<StmtView>) -> nat
    decreases s, 0nat,
{
    if s.len() == 0 { 0 } else { stmts_nodes(s.drop_last()) + stmt_nodes(s.last()) }
}

/// Node numbers are given out one after the other: drawing an expression
/// after node `c` ends at `c` plus the number of its boxes, and the boxes of
/// a list start right after those of the elements before them.
pub proof fn lemma_gv_expr_count(e: ExprView, c: nat)
    ensures
        gv_expr(e, c).1 == c + expr_nodes(e),
    decreases e, 1nat,
{
    match e {
        ExprView::Assign(_, v) => { lemma_gv_expr_count(*v, c + 2); }
        ExprView::Binary(l, _, r) => {
            lemma_gv_expr_count(*l, c + 1);
            lemma_gv_expr_count(*r, gv_expr(*l, c + 1).1);
        }
        ExprView::Call(callee, _, args) => {
            assert(decreases_to!(e => e->Call_2));
            lemma_gv_expr_count(*callee, c + 2);
            lemma_gv_args_count(args, gv_expr(*callee, c + 2).1);
        }
        ExprView::Get(o, _) => { lemma_gv_expr_count(*o, c + 2); }
        ExprView::Grouping(g) => { lemma_gv_expr_count(*g, c + 1); }
        ExprView::Logical(l, _, r) => {
            lemma_gv_expr_count(*l, c + 1);
            lemma_gv_expr_count(*r, gv_expr(*l, c + 1).1);
        }
        ExprView::Unary(_, r) => { lemma_gv_expr_count(*r, c + 1); }
        ExprView::SetProperty(o, _, v) => {
            lemma_gv_expr_count(*o, c + 2);
            lemma_gv_expr_count(*v, gv_expr(*o, c + 2).1);
        }
        _ => {}
    }
}

/// The boxes of a list of expressions are numbered one after the other: the
/// list ends at `c` plus their number, and element `i` has the node right
/// after the boxes of the elements before it.
pub proof fn lemma_gv_args_count(s: Seq<ExprView>, c: nat)
    ensures
        gv_args(s, c).2 == c + args_nodes(s),
        gv_args(s, c).1.len() == s.len(),
        forall|i: int| 0 <= i < s.len() ==> #[trigger] gv_args(s, c).1[i] == c + args_nodes(s.take(i)) + 1,
    decreases s, 0nat,
{
    if s.len() > 0 {
        let t = s.drop_last();
        lemma_gv_args_count(t, c);
        lemma_gv_expr_count(s.last(), gv_args(t, c).2);
        assert forall|i: int| 0 <= i < s.len() implies #[trigger] gv_args(s, c).1[i] == c + args_nodes(s.take(i)) + 1 by {
            if i < t.len() {
                assert(s.take(i) =~= t.take(i));
            } else {
                assert(s.take(i) =~= t);
            }
        }
    }
}

/// Drawing a statement after node `c` ends at `c` plus the number of its boxes.
pub proof fn lemma_gv_stmt_count(s: StmtView, c: nat)
    ensures
        gv_stmt(s, c).1 == c + stmt_nodes(s),
    decreases s, 1nat,
{
    match s {
        StmtView::Block(b) => {
            assert(decreases_to!(s => s->Block_0));
            lemma_gv_stmts_count(b, c + 1);
        }
        StmtView::Class(_, sup, ms) => {
            assert(decreases_to!(s => s->Class_2));
            match sup {
                None => { lemma_gv_stmts_count(ms, c + 3); }
                Some(x) => {
                    lemma_gv_expr_count(x, c + 3);
                    lemma_gv_stmts_count(ms, gv_expr(x, c + 3).1);
                }
            }
        }
        StmtView::Expression(e) => { lemma_gv_expr_count(e, c + 1); }
        StmtView::Function(_, ps, body) => {
            assert(decreases_to!(s => s->Function_2));
            lemma_gv_stmts_count(body, c + 4 + ps.len());
        }
        StmtView::If(cond, t, e) => {
            lemma_gv_expr_count(cond, c + 1);
            lemma_gv_stmt_count(*t, gv_expr(cond, c + 1).1);
            match e {
                Some(eb) => { lemma_gv_stmt_count(*eb, gv_stmt(*t, gv_expr(cond, c + 1).1).1); }
                None => {}
            }
        }
        StmtView::Print(e) => { lemma_gv_expr_count(e, c + 1); }
        StmtView::Return(_, v) => { lemma_gv_expr_count(v, c + 1); }
        StmtView::Var(_, init) => { lemma_gv_expr_count(init, c + 2); }
        StmtView::While(cond, b) => {
            lemma_gv_expr_count(cond, c + 1);
            lemma_gv_stmt_count(*b, gv_expr(cond, c + 1).1);
        }
    }
}

/// The boxes of a list of statements are numbered one after the other, each
/// statement's node right after the boxes of the statements before it.
pub proof fn lemma_gv_stmts_count(s: Seq<StmtView>, c: nat)
    ensures
        gv_stmts(s, c).2 == c + stmts_nodes(s),
        gv_stmts(s, c).1.len() == s.len(),
        forall|i: int| 0 <= i < s.len() ==> #[trigger] gv_stmts(s, c).1[i] == c + stmts_nodes(s.take(i)) + 1,
    decreases s, 0nat,
{
    if s.len() > 0 {
        let t = s.drop_last();
        lemma_gv_stmts_count(t, c);
        lemma_gv_stmt_count(s.last(), gv_stmts(t, c).2);
        assert forall|i: int| 0 <= i < s.len() implies #[trigger] gv_stmts(s, c).1[i] == c + stmts_nodes(s.take(i)) + 1 by {
            if i < t.len() {
                assert(s.take(i) =~= t.take(i));
            } else {
                assert(s.take(i) =~= t);
            }
        }
    }
}

/// Drawing an expression uses at least one new node.
pub proof fn lemma_gv_expr_grows(e: ExprView, c: nat)
    ensures
        gv_expr(e, c).1 > c,
    decreases e, 1nat,
{
    match e {
        ExprView::Assign(_, v) => { lemma_gv_expr_grows(*v, c + 2); }
        ExprView::Binary(l, _, r) => {
            lemma_gv_expr_grows(*l, c + 1);
            lemma_gv_expr_grows(*r, gv_expr(*l, c + 1).1);
        }
        ExprView::Call(callee, _, args) => {
            assert(decreases_to!(e => e->Call_2));
            lemma_gv_expr_grows(*callee, c + 2);
            lemma_gv_args_grows(args, gv_expr(*callee, c + 2).1);
        }
        ExprView::Get(o, _) => { lemma_gv_expr_grows(*o, c + 2); }
        ExprView::Grouping(g) => { lemma_gv_expr_grows(*g, c + 1); }
        ExprView::Logical(l, _, r) => {
            lemma_gv_expr_grows(*l, c + 1);
            lemma_gv_expr_grows(*r, gv_expr(*l, c + 1).1);
        }
        ExprView::Unary(_, r) => { lemma_gv_expr_grows(*r, c + 1); }
        ExprView::SetProperty(o, _, v) => {
            lemma_gv_expr_grows(*o, c + 2);
            lemma_gv_expr_grows(*v, gv_expr(*o, c + 2).1);
        }
        _ => {}
    }
}

/// Drawing a list of expressions uses no node number below `c`, and a longer
/// list reaches at least as far as its beginning.
pub proof fn lemma_gv_args_grows(s: Seq<ExprView>, c: nat)
    ensures
        gv_args(s, c).2 >= c,
        gv_args(s, c).1.len() == s.len(),
    decreases s, 0nat,
{
    if s.len() > 0 {
        lemma_gv_args_grows(s.drop_last(), c);
        lemma_gv_expr_grows(s.last(), gv_args(s.drop_last(), c).2);
    }
}

/// Drawing a statement uses at least one new node.
pub proof fn lemma_gv_stmt_grows(s: StmtView, c: nat)
    ensures
        gv_stmt(s, c).1 > c,
    decreases s, 1nat,
{
    match s {
        StmtView::Block(b) => {
            assert(decreases_to!(s => s->Block_0));
            lemma_gv_stmts_grows(b, c + 1);
        }
        StmtView::Class(_, sup, ms) => {
            assert(decreases_to!(s => s->Class_2));
            match sup {
                None => { lemma_gv_stmts_grows(ms, c + 3); }
                Some(x) => {
                    lemma_gv_expr_grows(x, c + 3);
                    lemma_gv_stmts_grows(ms, gv_expr(x, c + 3).1);
                }
            }
        }
        StmtView::Expression(e) => { lemma_gv_expr_grows(e, c + 1); }
        StmtView::Function(_, ps, body) => {
            assert(decreases_to!(s => s->Function_2));
            lemma_gv_stmts_grows(body, c + 4 + ps.len());
        }
        StmtView::If(cond, t, e) => {
            lemma_gv_expr_grows(cond, c + 1);
            lemma_gv_stmt_grows(*t, gv_expr(cond, c + 1).1);
            match e {
                Some(eb) => { lemma_gv_stmt_grows(*eb, gv_stmt(*t, gv_expr(cond, c + 1).1).1); }
                None => {}
            }
        }
        StmtView::Print(e) => { lemma_gv_expr_grows(e, c + 1); }
        StmtView::Return(_, v) => { lemma_gv_expr_grows(v, c + 1); }
        StmtView::Var(_, init) => { lemma_gv_expr_grows(init, c + 2); }
        StmtView::While(cond, b) => {
            lemma_gv_expr_grows(cond, c + 1);
            lemma_gv_stmt_grows(*b, gv_expr(cond, c + 1).1);
        }
    }
}

/// Drawing a list of statements uses no node number below `c`.
pub proof fn lemma_gv_stmts_grows(s: Seq<StmtView>, c: nat)
    ensures
        gv_stmts(s, c).2 >= c,
        gv_stmts(s, c).1.len() == s.len(),
    decreases s, 0nat,
{
    if s.len() > 0 {
        lemma_gv_stmts_grows(s.drop_last(), c);
        lemma_gv_stmt_grows(s.last(), gv_stmts(s.drop_last(), c).2);
    }
}

/// A list of expressions reaches at least as far as any of its beginnings.
proof fn lemma_gv_args_prefix(s: Seq<ExprView>, c: nat, i: int)
    requires
        0 <= i <= s.len(),
    ensures
        gv_args(s.subrange(0, i), c).2 <= gv_args(s, c).2,
    decreases s.len() - i,
{
    if i < s.len() {
        lemma_gv_args_prefix(s, c, i + 1);
        let p = s.subrange(0, i + 1);
        assert(p.drop_last() =~= s.subrange(0, i));
        lemma_gv_expr_grows(p.last(), gv_args(s.subrange(0, i), c).2);
    } else {
        assert(s.subrange(0, i) =~= s);
    }
}

/// A list of statements reaches at least as far as any of its beginnings.
proof fn lemma_gv_stmts_prefix(s: Seq<StmtView>, c: nat, i: int)
    requires
        0 <= i <= s.len(),
    ensures
        gv_stmts(s.subrange(0, i), c).2 <= gv_stmts(s, c).2,
    decreases s.len() - i,
{
    if i < s.len() {
        lemma_gv_stmts_prefix(s, c, i + 1);
        let p = s.subrange(0, i + 1);
        assert(p.drop_last() =~= s.subrange(0, i));
        lemma_gv_stmt_grows(p.last(), gv_stmts(s.subrange(0, i), c).2);
    } else {
        assert(s.subrange(0, i) =~= s);
    }
}

/// Node numbers as mathematical values.
pub open spec fn nats(v: Seq<usize>) -> Seq<nat> {
    v.map_values(|x: usize| x as nat)
}

/// The graphs of a program's statements, numbered from `i0`: each in a
/// subgraph, a statement that failed to parse as a red node.
pub open spec fn program_body(s: Seq<Option<StmtView>>, c: nat) -> (Seq<char>, nat)
    decreases s.len(),
{
    if s.len() == 0 {
        (Seq::empty(), c)
    } else {
        let g = program_body(s.drop_last(), c);
        let i = (s.len() - 1) as nat;
        let open = "subgraph stmt"@ + decimal(i) + " {\n"@;
        match s.last() {
            Some(st) => {
                let a = gv_stmt(st, g.1);
                (g.0 + open + template_text() + a.0 + "}\n"@, a.1)
            }
            None => (g.0 + open + "\tNoneStmtLine"@ + decimal(i) + " [color=\"#f44336\" style=filled]\n"@ + "}\n"@, g.1),
        }
    }
}

/// The graph of a whole program drawn after node `c`.
pub open spec fn program_graph(s: Seq<Option<StmtView>>, c: nat) -> (Seq<char>, nat) {
    let b = program_body(s, c);
    ("digraph Program {\n"@ + b.0 + "}\n"@, b.1)
}

/// A program reaches at least as far as any of its beginnings.
proof fn lemma_program_body_prefix(s: Seq<Option<StmtView>>, c: nat, i: int)
    requires
        0 <= i <= s.len(),
    ensures
        program_body(s.subrange(0, i), c).1 <= program_body(s, c).1,
    decreases s.len() - i,
{
    if i < s.len() {
        lemma_program_body_prefix(s, c, i + 1);
        let p = s.subrange(0, i + 1);
        assert(p.drop_last() =~= s.subrange(0, i));
        match p.last() {
            Some(st) => { lemma_gv_stmt_grows(st, program_body(s.subrange(0, i), c).1); }
            None => {}
        }
    } else {
        assert(s.subrange(0, i) =~= s);
    }
}

fn edge(a: usize, b: usize) -> (s: String)
    ensures
        s@ == edge_text(a as nat, b as nat),
{
    let mut s = String::new();
    push_str(&mut s, "\tN");
    push_str(&mut s, decimal_string(a).as_str());
    push_str(&mut s, " -> N");
    push_str(&mut s, decimal_string(b).as_str());
    push_str(&mut s, "\n");
    assert(s@ =~= edge_text(a as nat, b as nat));
    s
}

fn edge2(a: usize, b: usize, c: usize) -> (s: String)
    ensures
        s@ == edge2_text(a as nat, b as nat, c as nat),
{
    let mut s = String::new();
    push_str(&mut s, "\tN");
    push_str(&mut s, decimal_string(a).as_str());
    push_str(&mut s, " -> {N");
    push_str(&mut s, decimal_string(b).as_str());
    push_str(&mut s, ", N");
    push_str(&mut s, decimal_string(c).as_str());
    push_str(&mut s, "}\n");
    assert(s@ =~= edge2_text(a as nat, b as nat, c as nat));
    s
}

fn edge3(a: usize, b: usize, c: usize, d: usize) -> (s: String)
    ensures
        s@ == edge3_text(a as nat, b as nat, c as nat, d as nat),
{
    let mut s = String::new();
    push_str(&mut s, "\tN");
    push_str(&mut s, decimal_string(a).as_str());
    push_str(&mut s, " -> {N");
    push_str(&mut s, decimal_string(b).as_str());
    push_str(&mut s, ", N");
    push_str(&mut s, decimal_string(c).as_str());
    push_str(&mut s, ", N");
    push_str(&mut s, decimal_string(d).as_str());
    push_str(&mut s, "}\n");
    assert(s@ =~= edge3_text(a as nat, b as nat, c as nat, d as nat));
    s
}

fn links(from: usize, to: &Vec<usize>) -> (s: String)
    ensures
        s@ == links_text(from as nat, nats(to@)),
{
    let mut s = String::new();
    let mut i: usize = 0;
    while i < to.len()
        invariant
            i <= to.len(),
            s@ == links_text(from as nat, nats(to@.subrange(0, i as int))),
        decreases to.len() - i,
    {
        let e = edge(from, to[i]);
        push_str(&mut s, e.as_str());
        proof {
            let sub = nats(to@.subrange(0, i + 1));
            assert(sub.drop_last() =~= nats(to@.subrange(0, i as int)));
            assert(sub.last() == to@[i as int] as nat);
        }
        i = i + 1;
    }
    assert(to@.subrange(0, to.len() as int) =~= to@);
    s
}

fn range_links(from: usize, start: usize, k: usize) -> (s: String)
    requires
        start + k <= usize::MAX,
    ensures
        s@ == range_links_text(from as nat, start as nat, k as nat),
{
    let mut s = String::new();
    let mut i: usize = 0;
    while i < k
        invariant
            i <= k,
            start + k <= usize::MAX,
            s@ == range_links_text(from as nat, start as nat, i as nat),
        decreases k - i,
    {
        let e = edge(from, start + i + 1);
        push_str(&mut s, e.as_str());
        i = i + 1;
    }
    s
}

/// The text of a string literal as a node shows it: its first 12 characters.
fn shown_string(s: &String) -> (r: String)
    ensures
        r@ == (if s@.len() > 12 { s@.subrange(0, 12) } else { s@ }),
{
    let v = chars_of(s.as_str());
    if v.len() > 12 {
        string_of(&v, 0, 12)
    } else {
        string_of(&v, 0, v.len())
    }
}

impl AstVis {
    /// Whether drawing `statements` keeps the node numbers within a `usize`.
    pub fn fits(&self, statements: &Vec<Option<Stmt>>) -> (b: bool)
        ensures
            b == (program_graph(opt_stmts_view(statements@), self.spec_node()).1 <= usize::MAX),
    {
        let ghost v = opt_stmts_view(statements@);
        proof { lemma_program_body_count(v, self.spec_node()); }
        let mut acc: usize = self.current_node;
        let mut i: usize = 0;
        while i < statements.len()
            invariant
                i <= statements.len(),
                v == opt_stmts_view(statements@),
                program_body(v, self.spec_node()).1 == self.spec_node() + program_nodes(v),
                acc == self.spec_node() + program_nodes(v.subrange(0, i as int)),
            decreases statements.len() - i,
        {
            proof {
                assert(v.subrange(0, i + 1).drop_last() =~= v.subrange(0, i as int));
                lemma_program_nodes_prefix(v, i + 1);
            }
            match &statements[i] {
                Some(st) => {
                    match add_counts(Some(acc), stmt_node_count(st)) {
                        Some(n) => {
                            acc = n;
                        }
                        None => {
                            return false;
                        }
                    }
                }
                None => {}
            }
            i = i + 1;
        }
        proof { assert(v.subrange(0, i as int) =~= v); }
        true
    }

    /// Draws the whole program: a subgraph for each statement, with a red node
    /// for one that failed to parse, all inside the graph `Program`.
    #[verifier::rlimit(100)]
    #[verifier::spinoff_prover]
    pub fn draw(&mut self, statements: &Vec<Option<Stmt>>)
        requires
            program_graph(opt_stmts_view(statements@), old(self).spec_node()).1 <= usize::MAX,
        ensures
            final(self).spec_graph() == old(self).spec_graph() + program_graph(opt_stmts_view(statements@), old(self).spec_node()).0,
            final(self).spec_node() == program_graph(opt_stmts_view(statements@), old(self).spec_node()).1,
    {
        let ghost g0 = self.graph@;
        let ghost c = self.spec_node();
        let ghost all = opt_stmts_view(statements@);
        self.start_program();
        let mut i: usize = 0;
        while i < statements.len()
            invariant
                i <= statements.len(),
                all == opt_stmts_view(statements@),
                program_body(all, c).1 <= usize::MAX,
                self.graph@ == g0 + "digraph Program {\n"@ + program_body(all.subrange(0, i as int), c).0,
                self.spec_node() == program_body(all.subrange(0, i as int), c).1,
            decreases statements.len() - i,
        {
            let ghost sub = all.subrange(0, i + 1);
            proof {
                assert(sub.drop_last() =~= all.subrange(0, i as int));
                assert(sub.last() == opt_stmt_view(statements@[i as int]));
                lemma_program_body_prefix(all, c, i + 1);
            }
            self.start_stmt(i);
            match &statements[i] {
                Some(stmt) => {
                    self.put_template();
                    let (text, _) = self.visit_stmt(stmt);
                    push_str(&mut self.graph, text.as_str());
                }
                None => {
                    self.put_none(i);
                }
            }
            self.end_graph();
            proof {
                assert(self.graph@ =~= g0 + "digraph Program {\n"@ + program_body(sub, c).0);
            }
            i = i + 1;
        }
        assert(all.subrange(0, statements.len() as int) =~= all);
        self.end_graph();
        assert(self.graph@ =~= g0 + program_graph(all, c).0);
    }

    fn tok_box(&mut self, t: &Token) -> (s: String)
        requires
            old(self).spec_node() < usize::MAX,
        ensures
            final(self).spec_node() == old(self).spec_node() + 1,
            final(self).spec_graph() == old(self).spec_graph(),
            s@ == token_box(final(self).spec_node(), t@),
    {
        let rows = vec![t.get_lexeme()];
        assert(strs(rows@) =~= seq![t@.lexeme]);
        self.token_node(kind_name(*t.get_type()), Some(rows))
    }

    fn lit_box(&mut self, l: &Literal) -> (s: String)
        requires
            old(self).spec_node() < usize::MAX,
        ensures
            final(self).spec_node() == old(self).spec_node() + 1,
            final(self).spec_graph() == old(self).spec_graph(),
            s@ == literal_box(final(self).spec_node(), l@),
    {
        let shown = match l {
            Literal::Bool(b) => if *b { "true".to_owned() } else { "false".to_owned() },
            Literal::Number(n) => display_number(n),
            Literal::String(x) => shown_string(x),
            Literal::Nil => "nil".to_owned(),
        };
        let kind = match l {
            Literal::Bool(_) => "Bool",
            Literal::Number(_) => "Number",
            Literal::String(_) => "String",
            Literal::Nil => "None",
        };
        let rows = vec![shown.as_str()];
        assert(strs(rows@) =~= seq![literal_info(l@).1]);
        self.literal_node(kind, Some(rows))
    }

    fn e_box(&mut self, italic: &str, rows: Vec<&str>) -> (s: String)
        requires
            old(self).spec_node() < usize::MAX,
        ensures
            final(self).spec_node() == old(self).spec_node() + 1,
            final(self).spec_graph() == old(self).spec_graph(),
            s@ == expr_box(final(self).spec_node(), italic@, strs(rows@)),
    {
        self.expr_node(italic, Some(rows))
    }

    fn s_box(&mut self, italic: &str, rows: Vec<&str>) -> (s: String)
        requires
            old(self).spec_node() < usize::MAX,
        ensures
            final(self).spec_node() == old(self).spec_node() + 1,
            final(self).spec_graph() == old(self).spec_graph(),
            s@ == stmt_box(final(self).spec_node(), italic@, strs(rows@)),
    {
        self.stmt_node(italic, Some(rows))
    }

    /// The graph of `e`, whose node is the next one, and that node's number.
    #[verifier::rlimit(100)]
    #[verifier::spinoff_prover]
    pub fn visit_expr(&mut self, e: &Expr) -> (r: (String, usize))
        requires
            gv_expr(e@, old(self).spec_node()).1 <= usize::MAX,
        ensures
            r.0@ == gv_expr(e@, old(self).spec_node()).0,
            r.1 == old(self).spec_node() + 1,
            final(self).spec_node() == gv_expr(e@, old(self).spec_node()).1,
            final(self).spec_graph() == old(self).spec_graph(),
        decreases e, 1nat,
    {
        let ghost c = self.spec_node();
        proof { lemma_gv_expr_grows(e@, c); }
        let next = self.current_node + 1;
        let mut out;
        match e {
            Expr::Assign(name, value) => {
                proof { lemma_gv_expr_grows(value@, c + 2); }
                let rows = vec!["="];
                assert(strs(rows@) =~= seq!["="@]);
                out = self.e_box("Assign", rows);
                let var = self.tok_box(name);
                let (val, val_num) = self.visit_expr(value);
                push_str(&mut out, var.as_str());
                push_str(&mut out, edge(next, next + 1).as_str());
                push_str(&mut out, val.as_str());
                push_str(&mut out, edge(next, val_num).as_str());
            }
            Expr::Binary(l, op, r) => {
                proof {
                    lemma_gv_expr_grows(l@, c + 1);
                    lemma_gv_expr_grows(r@, gv_expr(l@, c + 1).1);
                }
                let rows = vec![op.get_lexeme()];
                assert(strs(rows@) =~= seq![op@.lexeme]);
                out = self.e_box("Binary", rows);
                let (left, nl) = self.visit_expr(l);
                let (right, nr) = self.visit_expr(r);
                push_str(&mut out, left.as_str());
                push_str(&mut out, right.as_str());
                push_str(&mut out, edge2(next, nl, nr).as_str());
            }
            Expr::Call(callee, _, args) => {
                proof {
                    lemma_gv_expr_grows(callee@, c + 2);
                    lemma_gv_args_grows(exprs_view(args@), gv_expr(callee@, c + 2).1);
                }
                out = self.expr_node("Call", None);
                let arguments = self.arguments_node();
                let (call_exp, call_num) = self.visit_expr(callee);
                let (arg_text, nums) = self.visit_args(args);
                push_str(&mut out, arguments.as_str());
                push_str(&mut out, call_exp.as_str());
                push_str(&mut out, edge2(next, next + 1, call_num).as_str());
                push_str(&mut out, arg_text.as_str());
                push_str(&mut out, links(next + 1, &nums).as_str());
            }
            Expr::Get(object, name) => {
                proof { lemma_gv_expr_grows(object@, c + 2); }
                let rows = vec!["."];
                assert(strs(rows@) =~= seq!["."@]);
                out = self.e_box("Get", rows);
                let var = self.tok_box(name);
                let (obj, obj_num) = self.visit_expr(object);
                push_str(&mut out, var.as_str());
                push_str(&mut out, edge(next, next + 1).as_str());
                push_str(&mut out, obj.as_str());
                push_str(&mut out, edge(next, obj_num).as_str());
            }
            Expr::Grouping(group) => {
                proof { lemma_gv_expr_grows(group@, c + 1); }
                let rows = vec!["()"];
                assert(strs(rows@) =~= seq!["()"@]);
                out = self.e_box("Grouping", rows);
                let (inner, inner_num) = self.visit_expr(group);
                push_str(&mut out, inner.as_str());
                push_str(&mut out, edge(next, inner_num).as_str());
            }
            Expr::LiteralExpr(literal) => {
                out = self.lit_box(literal);
            }
            Expr::Logical(l, op, r) => {
                proof {
                    lemma_gv_expr_grows(l@, c + 1);
                    lemma_gv_expr_grows(r@, gv_expr(l@, c + 1).1);
                }
                let rows = vec![op.get_lexeme()];
                assert(strs(rows@) =~= seq![op@.lexeme]);
                out = self.e_box("Logical", rows);
                let (left, nl) = self.visit_expr(l);
                let (right, nr) = self.visit_expr(r);
                push_str(&mut out, left.as_str());
                push_str(&mut out, right.as_str());
                push_str(&mut out, edge2(next, nl, nr).as_str());
            }
            Expr::Unary(op, r) => {
                proof { lemma_gv_expr_grows(r@, c + 1); }
                let rows = vec![op.get_lexeme()];
                assert(strs(rows@) =~= seq![op@.lexeme]);
                out = self.e_box("Unary", rows);
                let (right, nr) = self.visit_expr(r);
                push_str(&mut out, right.as_str());
                push_str(&mut out, edge(next, nr).as_str());
            }
            Expr::Variable(name) => {
                out = self.expr_node("Variable", None);
                let var = self.tok_box(name);
                push_str(&mut out, var.as_str());
                push_str(&mut out, edge(next, next + 1).as_str());
            }
            Expr::SetProperty(object, name, value) => {
                proof {
                    lemma_gv_expr_grows(object@, c + 2);
                    lemma_gv_expr_grows(value@, gv_expr(object@, c + 2).1);
                }
                let rows = vec!["="];
                assert(strs(rows@) =~= seq!["="@]);
                out = self.e_box("Set", rows);
                let var = self.tok_box(name);
                let (obj, obj_num) = self.visit_expr(object);
                let (val, val_num) = self.visit_expr(value);
                push_str(&mut out, var.as_str());
                push_str(&mut out, edge(next, next + 1).as_str());
                push_str(&mut out, obj.as_str());
                push_str(&mut out, edge(next, obj_num).as_str());
                push_str(&mut out, val.as_str());
                push_str(&mut out, edge(next, val_num).as_str());
            }
            Expr::Super(_, method) => {
                out = self.expr_node("Super", None);
                let attribute = self.tok_box(method);
                push_str(&mut out, attribute.as_str());
                push_str(&mut out, edge(next, next + 1).as_str());
            }
            Expr::This(_) => {
                out = self.expr_node("This", None);
            }
        }
        assert(out@ =~= gv_expr(e@, c).0);
        (out, next)
    }

    #[verifier::rlimit(100)]
    #[verifier::spinoff_prover]
    fn visit_args(&mut self, args: &Vec<Expr>) -> (r: (String, Vec<usize>))
        requires
            gv_args(exprs_view(args@), old(self).spec_node()).2 <= usize::MAX,
        ensures
            r.0@ == gv_args(exprs_view(args@), old(self).spec_node()).0,
            nats(r.1@) == gv_args(exprs_view(args@), old(self).spec_node()).1,
            final(self).spec_node() == gv_args(exprs_view(args@), old(self).spec_node()).2,
            final(self).spec_graph() == old(self).spec_graph(),
        decreases args, 0nat,
    {
        let ghost c = self.spec_node();
        let ghost all = exprs_view(args@);
        let mut text = String::new();
        let mut nums: Vec<usize> = Vec::new();
        let mut i: usize = 0;
        while i < args.len()
            invariant
                i <= args.len(),
                all == exprs_view(args@),
                gv_args(all, c).2 <= usize::MAX,
                self.spec_graph() == old(self).spec_graph(),
                ({
                    let g = gv_args(exprs_view(args@.subrange(0, i as int)), c);
                    &&& text@ == g.0
                    &&& nats(nums@) == g.1
                    &&& self.spec_node() == g.2
                }),
            decreases args.len() - i,
        {
            let ghost before = exprs_view(args@.subrange(0, i as int));
            let ghost sub = args@.subrange(0, i + 1);
            proof {
                assert(sub.drop_last() =~= args@.subrange(0, i as int));
                lemma_exprs_view_len(args@);
                lemma_exprs_view_len(sub);
                assert(exprs_view(sub) =~= all.subrange(0, i + 1));
                assert(exprs_view(sub).drop_last() =~= before);
                lemma_gv_args_prefix(all, c, i + 1);
            }
            let ghost nums_before = nums@;
            let (t, n) = self.visit_expr(&args[i]);
            push_str(&mut text, t.as_str());
            nums.push(n);
            proof {
                assert(nats(nums@) =~= nats(nums_before).push(n as nat));
            }
            i = i + 1;
        }
        assert(args@.subrange(0, args.len() as int) =~= args@);
        (text, nums)
    }

    /// The graph of `s`, whose node is the next one, and that node's number.
    #[verifier::rlimit(100)]
    #[verifier::spinoff_prover]
    pub fn visit_stmt(&mut self, s: &Stmt) -> (r: (String, usize))
        requires
            gv_stmt(s@, old(self).spec_node()).1 <= usize::MAX,
        ensures
            r.0@ == gv_stmt(s@, old(self).spec_node()).0,
            r.1 == old(self).spec_node() + 1,
            final(self).spec_node() == gv_stmt(s@, old(self).spec_node()).1,
            final(self).spec_graph() == old(self).spec_graph(),
        decreases s, 2nat,
    {
        let ghost c = self.spec_node();
        proof { lemma_gv_stmt_grows(s@, c); }
        let next = self.current_node + 1;
        let mut out;
        match s {
            Stmt::Block(stmts) => {
                proof { lemma_gv_stmts_grows(stmts_view(stmts@), c + 1); }
                out = self.stmt_node("Block", None);
                let (text, nums) = self.visit_stmts(stmts);
                push_str(&mut out, text.as_str());
                push_str(&mut out, links(next, &nums).as_str());
            }
            Stmt::Class(..) => {
                return self.visit_class(s);
            }
            Stmt::Expression(exp) => {
                proof { lemma_gv_expr_grows(exp@, c + 1); }
                let rows = vec![";"];
                assert(strs(rows@) =~= seq![";"@]);
                out = self.s_box("Expression", rows);
                let (expression, expr_num) = self.visit_expr(exp);
                push_str(&mut out, expression.as_str());
                push_str(&mut out, edge(next, expr_num).as_str());
            }
            Stmt::Function(..) => {
                return self.visit_function(s);
            }
            Stmt::If(..) => {
                return self.visit_if(s);
            }
            Stmt::Print(exp) => {
                proof { lemma_gv_expr_grows(exp@, c + 1); }
                out = self.stmt_node("Print", None);
                let (expression, expr_num) = self.visit_expr(exp);
                push_str(&mut out, expression.as_str());
                push_str(&mut out, edge(next, expr_num).as_str());
            }
            Stmt::Return(_, value) => {
                proof { lemma_gv_expr_grows(value@, c + 1); }
                out = self.stmt_node("Return", None);
                let (val, val_num) = self.visit_expr(value);
                push_str(&mut out, val.as_str());
                push_str(&mut out, edge(next, val_num).as_str());
            }
            Stmt::Var(name, initializer) => {
                proof { lemma_gv_expr_grows(initializer@, c + 2); }
                let rows = vec!["var", "="];
                assert(strs(rows@) =~= seq!["var"@, "="@]);
                out = self.s_box("Var", rows);
                let var = self.tok_box(name);
                let (val, val_num) = self.visit_expr(initializer);
                push_str(&mut out, var.as_str());
                push_str(&mut out, val.as_str());
                push_str(&mut out, edge2(next, next + 1, val_num).as_str());
            }
            Stmt::While(condition, body) => {
                proof {
                    lemma_gv_expr_grows(condition@, c + 1);
                    lemma_gv_stmt_grows(body@, gv_expr(condition@, c + 1).1);
                }
                out = self.stmt_node("While", None);
                let (cond, cond_num) = self.visit_expr(condition);
                let (body_stmt, body_num) = self.visit_stmt(body);
                push_str(&mut out, cond.as_str());
                push_str(&mut out, body_stmt.as_str());
                push_str(&mut out, edge2(next, cond_num, body_num).as_str());
            }
        }
        assert(out@ =~= gv_stmt(s@, c).0);
        (out, next)
    }

    #[verifier::rlimit(100)]
    #[verifier::spinoff_prover]
    fn visit_class(&mut self, s: &Stmt) -> (r: (String, usize))
        requires
            s is Class,
            gv_stmt(s@, old(self).spec_node()).1 <= usize::MAX,
        ensures
            r.0@ == gv_stmt(s@, old(self).spec_node()).0,
            r.1 == old(self).spec_node() + 1,
            final(self).spec_node() == gv_stmt(s@, old(self).spec_node()).1,
            final(self).spec_graph() == old(self).spec_graph(),
        decreases s, 1nat,
    {
        let ghost c = self.spec_node();
        proof { lemma_gv_stmt_grows(s@, c); }
        let next = self.current_node + 1;
        let mut out;
        match s {
            Stmt::Class(name, superclass, methods) => {
                out = if superclass.is_none() {
                    let rows = vec!["class"];
                    assert(strs(rows@) =~= seq!["class"@]);
                    self.s_box("Class", rows)
                } else {
                    let rows = vec!["class", "<"];
                    assert(strs(rows@) =~= seq!["class"@, "<"@]);
                    self.s_box("Class", rows)
                };
                proof {
                    match superclass {
                        None => { lemma_gv_stmts_grows(stmts_view(methods@), c + 3); }
                        Some(x) => {
                            lemma_gv_expr_grows(x@, c + 3);
                            lemma_gv_stmts_grows(stmts_view(methods@), gv_expr(x@, c + 3).1);
                        }
                    }
                }
                let class_name = self.tok_box(name);
                let methods_node = self.methods_node();
                push_str(&mut out, class_name.as_str());
                push_str(&mut out, methods_node.as_str());
                match superclass {
                    None => {
                        push_str(&mut out, edge2(next, next + 1, next + 2).as_str());
                    }
                    Some(x) => {
                        let (sup, sup_num) = self.visit_expr(x);
                        push_str(&mut out, sup.as_str());
                        push_str(&mut out, edge3(next, next + 1, next + 2, sup_num).as_str());
                    }
                }
                let (text, nums) = self.visit_stmts(methods);
                push_str(&mut out, text.as_str());
                push_str(&mut out, links(next + 2, &nums).as_str());
                        }
            _ => {
                proof { assert(false); }
                return (String::new(), next);
            }
        }
        assert(out@ =~= gv_stmt(s@, c).0);
        (out, next)
    }

    #[verifier::rlimit(100)]
    #[verifier::spinoff_prover]
    fn visit_function(&mut self, s: &Stmt) -> (r: (String, usize))
        requires
            s is Function,
            gv_stmt(s@, old(self).spec_node()).1 <= usize::MAX,
        ensures
            r.0@ == gv_stmt(s@, old(self).spec_node()).0,
            r.1 == old(self).spec_node() + 1,
            final(self).spec_node() == gv_stmt(s@, old(self).spec_node()).1,
            final(self).spec_graph() == old(self).spec_graph(),
        decreases s, 1nat,
    {
        let ghost c = self.spec_node();
        proof { lemma_gv_stmt_grows(s@, c); }
        let next = self.current_node + 1;
        let mut out;
        match s {
            Stmt::Function(name, parameters, body) => {
                proof {
                    lemma_gv_stmts_grows(stmts_view(body@), c + 4 + parameters@.len());
                }
                let rows = vec!["fun"];
                assert(strs(rows@) =~= seq!["fun"@]);
                out = self.s_box("Function", rows);
                let fun_name = self.tok_box(name);
                let params_node = self.parameters_node();
                let body_node = self.function_body_node();
                push_str(&mut out, fun_name.as_str());
                push_str(&mut out, params_node.as_str());
                push_str(&mut out, body_node.as_str());
                push_str(&mut out, edge3(next, next + 1, next + 2, next + 3).as_str());
                let ghost ps = tokens_view(parameters@);
                let mut params = String::new();
                let mut i: usize = 0;
                while i < parameters.len()
                    invariant
                        i <= parameters.len(),
                        ps == tokens_view(parameters@),
                        c + 4 + parameters@.len() <= usize::MAX,
                        self.spec_node() == c + 4 + i,
                        self.spec_graph() == old(self).spec_graph(),
                        params@ == params_boxes(tokens_view(parameters@.subrange(0, i as int)), c + 4),
                    decreases parameters.len() - i,
                {
                    let b = self.tok_box(&parameters[i]);
                    push_str(&mut params, b.as_str());
                    proof {
                        let sub = tokens_view(parameters@.subrange(0, i + 1));
                        assert(sub.drop_last() =~= tokens_view(parameters@.subrange(0, i as int)));
                    }
                    i = i + 1;
                }
                assert(parameters@.subrange(0, parameters.len() as int) =~= parameters@);
                push_str(&mut params, range_links(next + 2, next + 3, parameters.len()).as_str());
                let (text, nums) = self.visit_stmts(body);
                push_str(&mut out, params.as_str());
                push_str(&mut out, text.as_str());
                push_str(&mut out, links(next + 3, &nums).as_str());
                        }
            _ => {
                proof { assert(false); }
                return (String::new(), next);
            }
        }
        assert(out@ =~= gv_stmt(s@, c).0);
        (out, next)
    }

    #[verifier::rlimit(100)]
    #[verifier::spinoff_prover]
    fn visit_if(&mut self, s: &Stmt) -> (r: (String, usize))
        requires
            s is If,
            gv_stmt(s@, old(self).spec_node()).1 <= usize::MAX,
        ensures
            r.0@ == gv_stmt(s@, old(self).spec_node()).0,
            r.1 == old(self).spec_node() + 1,
            final(self).spec_node() == gv_stmt(s@, old(self).spec_node()).1,
            final(self).spec_graph() == old(self).spec_graph(),
        decreases s, 1nat,
    {
        let ghost c = self.spec_node();
        proof { lemma_gv_stmt_grows(s@, c); }
        let next = self.current_node + 1;
        let mut out;
        match s {
            Stmt::If(condition, then_branch, else_branch) => {
                proof {
                    lemma_gv_expr_grows(condition@, c + 1);
                    lemma_gv_stmt_grows(then_branch@, gv_expr(condition@, c + 1).1);
                    match else_branch {
                        Some(eb) => {
                            lemma_gv_stmt_grows(eb@, gv_stmt(then_branch@, gv_expr(condition@, c + 1).1).1);
                        }
                        None => {}
                    }
                }
                out = if else_branch.is_none() {
                    let rows = vec!["if"];
                    assert(strs(rows@) =~= seq!["if"@]);
                    self.s_box("If", rows)
                } else {
                    let rows = vec!["if-else"];
                    assert(strs(rows@) =~= seq!["if-else"@]);
                    self.s_box("If", rows)
                };
                let (cond, cond_num) = self.visit_expr(condition);
                let (then_stmt, then_num) = self.visit_stmt(then_branch);
                push_str(&mut out, cond.as_str());
                push_str(&mut out, then_stmt.as_str());
                match else_branch {
                    None => {
                        push_str(&mut out, edge2(next, cond_num, then_num).as_str());
                    }
                    Some(eb) => {
                        let (else_stmt, else_num) = self.visit_stmt(eb);
                        push_str(&mut out, else_stmt.as_str());
                        push_str(&mut out, edge3(next, cond_num, then_num, else_num).as_str());
                    }
                }
                        }
            _ => {
                proof { assert(false); }
                return (String::new(), next);
            }
        }
        assert(out@ =~= gv_stmt(s@, c).0);
        (out, next)
    }

    #[verifier::rlimit(100)]
    #[verifier::spinoff_prover]
    fn visit_stmts(&mut self, v: &Vec<Stmt>) -> (r: (String, Vec<usize>))
        requires
            gv_stmts(stmts_view(v@), old(self).spec_node()).2 <= usize::MAX,
        ensures
            r.0@ == gv_stmts(stmts_view(v@), old(self).spec_node()).0,
            nats(r.1@) == gv_stmts(stmts_view(v@), old(self).spec_node()).1,
            final(self).spec_node() == gv_stmts(stmts_view(v@), old(self).spec_node()).2,
            final(self).spec_graph() == old(self).spec_graph(),
        decreases v, 0nat,
    {
        let ghost c = self.spec_node();
        let ghost all = stmts_view(v@);
        let mut text = String::new();
        let mut nums: Vec<usize> = Vec::new();
        let mut i: usize = 0;
        while i < v.len()
            invariant
                i <= v.len(),
                all == stmts_view(v@),
                gv_stmts(all, c).2 <= usize::MAX,
                self.spec_graph() == old(self).spec_graph(),
                ({
                    let g = gv_stmts(stmts_view(v@.subrange(0, i as int)), c);
                    &&& text@ == g.0
                    &&& nats(nums@) == g.1
                    &&& self.spec_node() == g.2
                }),
            decreases v.len() - i,
        {
            let ghost before = stmts_view(v@.subrange(0, i as int));
            let ghost sub = v@.subrange(0, i + 1);
            proof {
                assert(sub.drop_last() =~= v@.subrange(0, i as int));
                lemma_stmts_view_len(v@);
                lemma_stmts_view_len(sub);
                assert(stmts_view(sub) =~= all.subrange(0, i + 1));
                assert(stmts_view(sub).drop_last() =~= before);
                lemma_gv_stmts_prefix(all, c, i + 1);
            }
            let ghost nums_before = nums@;
            let (t, n) = self.visit_stmt(&v[i]);
            push_str(&mut text, t.as_str());
            nums.push(n);
            proof {
                assert(nats(nums@) =~= nats(nums_before).push(n as nat));
            }
            i = i + 1;
        }
        assert(v@.subrange(0, v.len() as int) =~= v@);
        (text, nums)
    }
}

impl Default for AstVis {
    /// The same as `AstVis::new()`.
    fn default() -> (v: AstVis)
        ensures
            v.spec_graph() == Seq::<char>::empty(),
            v.spec_node() == 0,
    {
        Self::new()
    }
}

fn add_counts(a: Option<usize>, b: Option<usize>) -> (r: Option<usize>)
    ensures
        r is Some <==> (a is Some && b is Some && a->0 + b->0 <= usize::MAX),
        r matches Some(n) ==> n == a->0 + b->0,
{
    match (a, b) {
        (Some(x), Some(y)) => x.checked_add(y),
        _ => None,
    }
}

/// How many boxes the graph of `e` has, when that fits in a `usize`.
pub fn expr_node_count(e: &Expr) -> (r: Option<usize>)
    ensures
        r is Some <==> expr_nodes(e@) <= usize::MAX,
        r matches Some(n) ==> n == expr_nodes(e@),
    decreases e, 1nat,
{
    match e {
        Expr::Assign(_, v) => add_counts(Some(2), expr_node_count(v)),
        Expr::Binary(l, _, r) => add_counts(add_counts(Some(1), expr_node_count(l)), expr_node_count(r)),
        Expr::Call(c, _, args) => add_counts(add_counts(Some(2), expr_node_count(c)), args_node_count(args)),
        Expr::Get(o, _) => add_counts(Some(2), expr_node_count(o)),
        Expr::Grouping(g) => add_counts(Some(1), expr_node_count(g)),
        Expr::LiteralExpr(_) => Some(1),
        Expr::Logical(l, _, r) => add_counts(add_counts(Some(1), expr_node_count(l)), expr_node_count(r)),
        Expr::Unary(_, r) => add_counts(Some(1), expr_node_count(r)),
        Expr::SetProperty(o, _, v) => add_counts(add_counts(Some(2), expr_node_count(o)), expr_node_count(v)),
        Expr::Super(_, _) => Some(2),
        Expr::This(_) => Some(1),
        Expr::Variable(_) => Some(2),
    }
}

/// A list of expressions has at least the boxes of its beginnings.
proof fn lemma_args_nodes_prefix(s: Seq<Expr>, i: int)
    requires
        0 <= i <= s.len(),
    ensures
        args_nodes(exprs_view(s.subrange(0, i))) <= args_nodes(exprs_view(s)),
    decreases s.len(),
{
    if i < s.len() {
        lemma_args_nodes_prefix(s.drop_last(), i);
        assert(s.drop_last().subrange(0, i) =~= s.subrange(0, i));
        assert(exprs_view(s).drop_last() =~= exprs_view(s.drop_last()));
    } else {
        assert(s.subrange(0, i) =~= s);
    }
}

/// How many boxes the graphs of `args` have, when that fits in a `usize`.
pub fn args_node_count(args: &Vec<Expr>) -> (r: Option<usize>)
    ensures
        r is Some <==> args_nodes(exprs_view(args@)) <= usize::MAX,
        r matches Some(n) ==> n == args_nodes(exprs_view(args@)),
    decreases args, 0nat,
{
    let mut acc: usize = 0;
    let mut i: usize = 0;
    proof { lemma_exprs_view_len(args@); }
    while i < args.len()
        invariant
            i <= args.len(),
            acc == args_nodes(exprs_view(args@.subrange(0, i as int))),
            forall|j: int| 0 <= j < args@.len() ==> #[trigger] exprs_view(args@)[j] == args@[j]@,
        decreases args.len() - i,
    {
        let c = expr_node_count(&args[i]);
        proof {
            let sub = args@.subrange(0, i + 1);
            assert(sub.drop_last() =~= args@.subrange(0, i as int));
            assert(exprs_view(sub).drop_last() =~= exprs_view(args@.subrange(0, i as int)));
            assert(exprs_view(sub).last() == args@[i as int]@);
            lemma_args_nodes_prefix(args@, i + 1);
        }
        match add_counts(Some(acc), c) {
            Some(n) => {
                acc = n;
            }
            None => {
                return None;
            }
        }
        i = i + 1;
    }
    proof { assert(args@.subrange(0, i as int) =~= args@); }
    Some(acc)
}

/// How many boxes the graph of `s` has, when that fits in a `usize`.
pub fn stmt_node_count(s: &Stmt) -> (r: Option<usize>)
    ensures
        r is Some <==> stmt_nodes(s@) <= usize::MAX,
        r matches Some(n) ==> n == stmt_nodes(s@),
    decreases s, 1nat,
{
    match s {
        Stmt::Block(b) => add_counts(Some(1), stmts_node_count(b)),
        Stmt::Class(_, sup, ms) => {
            let head = match sup {
                Some(x) => add_counts(Some(3), expr_node_count(x)),
                None => Some(3),
            };
            add_counts(head, stmts_node_count(ms))
        }
        Stmt::Expression(e) => add_counts(Some(1), expr_node_count(e)),
        Stmt::Function(_, ps, body) => {
            let head = if ps.len() <= usize::MAX - 4 { Some(4 + ps.len()) } else { None };
            add_counts(head, stmts_node_count(body))
        }
        Stmt::If(c, t, e) => {
            let a = add_counts(add_counts(Some(1), expr_node_count(c)), stmt_node_count(t));
            match e {
                Some(eb) => add_counts(a, stmt_node_count(eb)),
                None => a,
            }
        }
        Stmt::Print(e) => add_counts(Some(1), expr_node_count(e)),
        Stmt::Return(_, v) => add_counts(Some(1), expr_node_count(v)),
        Stmt::Var(_, init) => add_counts(Some(2), expr_node_count(init)),
        Stmt::While(c, b) => add_counts(add_counts(Some(1), expr_node_count(c)), stmt_node_count(b)),
    }
}

/// A list of statements has at least the boxes of its beginnings.
proof fn lemma_stmts_nodes_prefix(s: Seq<Stmt>, i: int)
    requires
        0 <= i <= s.len(),
    ensures
        stmts_nodes(stmts_view(s.subrange(0, i))) <= stmts_nodes(stmts_view(s)),
    decreases s.len(),
{
    if i < s.len() {
        lemma_stmts_nodes_prefix(s.drop_last(), i);
        assert(s.drop_last().subrange(0, i) =~= s.subrange(0, i));
        assert(stmts_view(s).drop_last() =~= stmts_view(s.drop_last()));
    } else {
        assert(s.subrange(0, i) =~= s);
    }
}

/// How many boxes the graphs of `v` have, when that fits in a `usize`.
pub fn stmts_node_count(v: &Vec<Stmt>) -> (r: Option<usize>)
    ensures
        r is Some <==> stmts_nodes(stmts_view(v@)) <= usize::MAX,
        r matches Some(n) ==> n == stmts_nodes(stmts_view(v@)),
    decreases v, 0nat,
{
    let mut acc: usize = 0;
    let mut i: usize = 0;
    proof { lemma_stmts_view_len(v@); }
    while i < v.len()
        invariant
            i <= v.len(),
            acc == stmts_nodes(stmts_view(v@.subrange(0, i as int))),
            forall|j: int| 0 <= j < v@.len() ==> #[trigger] stmts_view(v@)[j] == v@[j]@,
        decreases v.len() - i,
    {
        let c = stmt_node_count(&v[i]);
        proof {
            let sub = v@.subrange(0, i + 1);
            assert(sub.drop_last() =~= v@.subrange(0, i as int));
            assert(stmts_view(sub).drop_last() =~= stmts_view(v@.subrange(0, i as int)));
            assert(stmts_view(sub).last() == v@[i as int]@);
            lemma_stmts_nodes_prefix(v@, i + 1);
        }
        match add_counts(Some(acc), c) {
            Some(n) => {
                acc = n;
            }
            None => {
                return None;
            }
        }
        i = i + 1;
    }
    proof { assert(v@.subrange(0, i as int) =~= v@); }
    Some(acc)
}

/// How many boxes the statements of a program draw (none for one that
/// failed to parse).
pub open spec fn program_nodes(s: Seq<Option<StmtView>>) -> nat
    decreases s.len(),
{
    if s.len() == 0 {
        0
    } else {
        program_nodes(s.drop_last()) + match s.last() {
            Some(st) => stmt_nodes(st),
            None => 0nat,
        }
    }
}

/// Drawing a program after node `c` ends at `c` plus its boxes.
pub proof fn lemma_program_body_count(s: Seq<Option<StmtView>>, c: nat)
    ensures
        program_body(s, c).1 == c + program_nodes(s),
    decreases s.len(),
{
    if s.len() > 0 {
        lemma_program_body_count(s.drop_last(), c);
        match s.last() {
            Some(st) => { lemma_gv_stmt_count(st, program_body(s.drop_last(), c).1); }
            None => {}
        }
    }
}

proof fn lemma_program_nodes_prefix(s: Seq<Option<StmtView>>, i: int)
    requires
        0 <= i <= s.len(),
    ensures
        program_nodes(s.subrange(0, i)) <= program_nodes(s),
    decreases s.len(),
{
    if i < s.len() {
        lemma_program_nodes_prefix(s.drop_last(), i);
        assert(s.drop_last().subrange(0, i) =~= s.subrange(0, i));
    } else {
        assert(s.subrange(0, i) =~= s);
    }
}

} // verus!
