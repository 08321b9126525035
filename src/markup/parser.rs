use vstd::prelude::*;
use crate::strings::{push_char, trim, trimmed};

verus! {

broadcast use vstd::std_specs::vec::axiom_vec_index_decreases;

/// An element with its children, or a run of text.
#[derive(Debug)]
pub enum Node {
    Element { name: String, children: Vec<Node> },
    Text(String),
}

/// The top-level nodes of a markup text.
#[derive(Debug)]
pub struct Document {
    pub roots: Vec<Node>,
}

/// A node as plain values.
pub enum NodeView {
    Element { name: Seq<char>, children: Seq<NodeView> },
    Text(Seq<char>),
}

pub open spec fn node_view(n: Node) -> NodeView
    decreases n,
{
    match n {
        Node::Text(t) => NodeView::Text(t@),
        Node::Element { name, children } => NodeView::Element {
            name: name@,
            children: Seq::new(
                children.len() as nat,
                |i: int|
                    if 0 <= i < children.len() {
                        node_view(children[i])
                    } else {
                        NodeView::Text(Seq::empty())
                    },
            ),
        },
    }
}

pub open spec fn nodes_view(ns: Seq<Node>) -> Seq<NodeView> {
    Seq::new(ns.len(), |i: int| node_view(ns[i]))
}

/// A piece of markup: `<name>`, `</name>` or text between tags.
enum Token {
    Open(String),
    Close(String),
    Text(String),
}

pub enum TokenView {
    Open(Seq<char>),
    Close(Seq<char>),
    Text(Seq<char>),
}

spec fn token_view(t: Token) -> TokenView {
    match t {
        Token::Open(s) => TokenView::Open(s@),
        Token::Close(s) => TokenView::Close(s@),
        Token::Text(s) => TokenView::Text(s@),
    }
}

/// The tokenizer part way through a text: tokens so far, pending text, and
/// whether it is inside a tag, with the tag read so far.
pub struct ScanState {
    pub tokens: Seq<TokenView>,
    pub text: Seq<char>,
    pub in_tag: bool,
    pub tag: Seq<char>,
}

/// `tokens` and the pending text, trimmed, unless that is empty.
pub open spec fn with_text(tokens: Seq<TokenView>, text: Seq<char>) -> Seq<TokenView> {
    let t = trimmed(text);
    if t.len() > 0 {
        tokens.push(TokenView::Text(t))
    } else {
        tokens
    }
}

/// `tokens` and the tag read, trimmed: a closing tag if it starts with `/`,
/// nothing if it is empty, else an opening tag.
pub open spec fn with_tag(tokens: Seq<TokenView>, tag: Seq<char>) -> Seq<TokenView> {
    let t = trimmed(tag);
    if t.len() > 0 && t[0] == '/' {
        tokens.push(TokenView::Close(trimmed(t.drop_first())))
    } else if t.len() > 0 {
        tokens.push(TokenView::Open(t))
    } else {
        tokens
    }
}

pub open spec fn scan_step(st: ScanState, c: char) -> ScanState {
    if st.in_tag {
        if c == '>' {
            ScanState { tokens: with_tag(st.tokens, st.tag), in_tag: false, tag: Seq::empty(), ..st }
        } else {
            ScanState { tag: st.tag.push(c), ..st }
        }
    } else if c == '<' {
        ScanState {
            tokens: with_text(st.tokens, st.text),
            text: Seq::empty(),
            in_tag: true,
            tag: Seq::empty(),
        }
    } else {
        ScanState { text: st.text.push(c), ..st }
    }
}

pub open spec fn scan(s: Seq<char>) -> ScanState
    decreases s.len(),
{
    if s.len() == 0 {
        ScanState { tokens: Seq::empty(), text: Seq::empty(), in_tag: false, tag: Seq::empty() }
    } else {
        scan_step(scan(s.drop_last()), s.last())
    }
}

/// The tokens of a markup text; a tag left open at the end still counts.
pub open spec fn tokens_of(s: Seq<char>) -> Seq<TokenView> {
    let st = scan(s);
    let t = if st.in_tag { with_tag(st.tokens, st.tag) } else { st.tokens };
    with_text(t, st.text)
}

/// The parser part way through the tokens: finished top-level nodes and the
/// open elements, each with its children so far.
pub struct TreeState {
    pub roots: Seq<NodeView>,
    pub open: Seq<(Seq<char>, Seq<NodeView>)>,
}

/// `n` added to the innermost open element, or to the top level.
pub open spec fn attach(st: TreeState, n: NodeView) -> TreeState {
    if st.open.len() > 0 {
        let (name, ch) = st.open.last();
        TreeState { open: st.open.update(st.open.len() - 1, (name, ch.push(n))), ..st }
    } else {
        TreeState { roots: st.roots.push(n), ..st }
    }
}

/// An opening tag opens an element; a closing tag closes the innermost open
/// element whatever its name, or stands as an empty element when none is open.
pub open spec fn tree_step(st: TreeState, t: TokenView) -> TreeState {
    match t {
        TokenView::Open(name) => TreeState { open: st.open.push((name, Seq::empty())), ..st },
        TokenView::Close(name) => if st.open.len() > 0 {
            let (n, ch) = st.open.last();
            attach(
                TreeState { open: st.open.drop_last(), ..st },
                NodeView::Element { name: n, children: ch },
            )
        } else {
            TreeState {
                roots: st.roots.push(NodeView::Element { name, children: Seq::empty() }),
                ..st
            }
        },
        TokenView::Text(s) => attach(st, NodeView::Text(s)),
    }
}

pub open spec fn build(ts: Seq<TokenView>) -> TreeState
    decreases ts.len(),
{
    if ts.len() == 0 {
        TreeState { roots: Seq::empty(), open: Seq::empty() }
    } else {
        tree_step(build(ts.drop_last()), ts.last())
    }
}

/// Elements still open at the end become top-level nodes, innermost first.
pub open spec fn close_all(roots: Seq<NodeView>, open: Seq<(Seq<char>, Seq<NodeView>)>) -> Seq<
    NodeView,
>
    decreases open.len(),
{
    if open.len() == 0 {
        roots
    } else {
        close_all(
            roots.push(NodeView::Element { name: open.last().0, children: open.last().1 }),
            open.drop_last(),
        )
    }
}

/// The top-level nodes of a markup text.
pub open spec fn markup_of(s: Seq<char>) -> Seq<NodeView> {
    let st = build(tokens_of(s));
    close_all(st.roots, st.open)
}

fn flush_text(buf: &mut String, tokens: &mut Vec<Token>)
    ensures
        final(buf)@ == Seq::<char>::empty(),
        final(tokens)@.map_values(|t: Token| token_view(t)) == with_text(
            old(tokens)@.map_values(|t: Token| token_view(t)),
            old(buf)@,
        ),
{
    let text = trim(buf.as_str());
    let ghost before = tokens@;
    if !text.as_str().is_empty() {
        tokens.push(Token::Text(text));
        assert(tokens@.map_values(|t: Token| token_view(t)) =~= before.map_values(
            |t: Token| token_view(t),
        ).push(TokenView::Text(trimmed(old(buf)@))));
    }
    *buf = String::new();
}

fn push_tag(tag: &String, tokens: &mut Vec<Token>)
    ensures
        final(tokens)@.map_values(|t: Token| token_view(t)) == with_tag(
            old(tokens)@.map_values(|t: Token| token_view(t)),
            tag@,
        ),
{
    let t = trim(tag.as_str());
    let ghost before = tokens@.map_values(|t: Token| token_view(t));
    let v = crate::strings::chars_of(t.as_str());
    if v.len() > 0 && v[0] == '/' {
        let rest = crate::strings::string_of(&v, 1, v.len());
        assert(rest@ =~= t@.drop_first());
        let name = trim(rest.as_str());
        tokens.push(Token::Close(name));
        assert(tokens@.map_values(|t: Token| token_view(t)) =~= before.push(
            TokenView::Close(trimmed(t@.drop_first())),
        ));
    } else if v.len() > 0 {
        tokens.push(Token::Open(t));
        assert(tokens@.map_values(|x: Token| token_view(x)) =~= before.push(TokenView::Open(t@)));
    }
}

fn tokenize(input: &str) -> (r: Vec<Token>)
    ensures
        r@.map_values(|t: Token| token_view(t)) == tokens_of(input@),
{
    let ghost whole = input@;
    let mut tokens: Vec<Token> = Vec::new();
    let mut buf = String::new();
    let mut tag = String::new();
    let mut in_tag = false;
    assert(whole.take(0) =~= Seq::<char>::empty());
    assert(tokens@.map_values(|t: Token| token_view(t)) =~= Seq::<TokenView>::empty());
    for ch in it: input.chars()
        invariant
            it.seq() == whole,
            scan(whole.take(it.index() as int)) == (ScanState {
                tokens: tokens@.map_values(|t: Token| token_view(t)),
                text: buf@,
                in_tag,
                tag: tag@,
            }),
    {
        let ghost i = it.index() as int;
        assert(whole.take(i + 1).drop_last() =~= whole.take(i));
        assert(whole.take(i + 1).last() == ch);
        if in_tag {
            if ch == '>' {
                push_tag(&tag, &mut tokens);
                in_tag = false;
                tag = String::new();
            } else {
                push_char(&mut tag, ch);
            }
        } else if ch == '<' {
            flush_text(&mut buf, &mut tokens);
            in_tag = true;
            tag = String::new();
        } else {
            push_char(&mut buf, ch);
        }
    }
    assert(whole.take(whole.len() as int) =~= whole);
    if in_tag {
        push_tag(&tag, &mut tokens);
    }
    flush_text(&mut buf, &mut tokens);
    tokens
}

pub open spec fn open_view(stack: Seq<(String, Vec<Node>)>) -> Seq<(Seq<char>, Seq<NodeView>)> {
    Seq::new(stack.len(), |i: int| (stack[i].0@, nodes_view(stack[i].1@)))
}

proof fn lemma_element_view(name: String, children: Vec<Node>)
    ensures
        node_view(Node::Element { name, children }) == (NodeView::Element {
            name: name@,
            children: nodes_view(children@),
        }),
{
    let v = node_view(Node::Element { name, children });
    if let NodeView::Element { name: n, children: c } = v {
        assert(c =~= nodes_view(children@));
    }
}

fn attach_node(roots: &mut Vec<Node>, stack: &mut Vec<(String, Vec<Node>)>, node: Node)
    ensures
        attach(
            TreeState { roots: nodes_view(old(roots)@), open: open_view(old(stack)@) },
            node_view(node),
        ) == (TreeState { roots: nodes_view(final(roots)@), open: open_view(final(stack)@) }),
{
    let ghost nv = node_view(node);
    let ghost os = open_view(stack@);
    let ghost rs = nodes_view(roots@);
    match stack.pop() {
        Some(top) => {
            let (name, mut children) = top;
            let ghost before = children@;
            children.push(node);
            assert(nodes_view(children@) =~= nodes_view(before).push(nv));
            stack.push((name, children));
            assert(open_view(stack@) =~= os.update(os.len() - 1, (name@, nodes_view(before).push(nv))));
        },
        None => {
            roots.push(node);
            assert(nodes_view(roots@) =~= rs.push(nv));
        },
    }
}

/// Reads markup: `<name>` opens an element, `</...>` closes the innermost open
/// one, text between tags (trimmed, unless blank) becomes text nodes.
pub fn parse_markup(input: &str) -> (doc: Document)
    ensures
        nodes_view(doc.roots@) == markup_of(input@),
{
    let tokens = tokenize(input);
    let ghost ts = tokens@.map_values(|t: Token| token_view(t));
    let mut roots: Vec<Node> = Vec::new();
    let mut stack: Vec<(String, Vec<Node>)> = Vec::new();
    let mut i: usize = 0;
    assert(ts.take(0) =~= Seq::<TokenView>::empty());
    assert(nodes_view(roots@) =~= Seq::<NodeView>::empty());
    assert(open_view(stack@) =~= Seq::<(Seq<char>, Seq<NodeView>)>::empty());
    while i < tokens.len()
        invariant
            i <= tokens@.len(),
            ts == tokens@.map_values(|t: Token| token_view(t)),
            build(ts.take(i as int)) == (TreeState {
                roots: nodes_view(roots@),
                open: open_view(stack@),
            }),
        decreases tokens@.len() - i,
    {
        assert(ts.take(i + 1).drop_last() =~= ts.take(i as int));
        assert(ts.take(i + 1).last() == token_view(tokens@[i as int]));
        let ghost os = open_view(stack@);
        let ghost rs = nodes_view(roots@);
        match &tokens[i] {
            Token::Open(tag) => {
                let children: Vec<Node> = Vec::new();
                assert(nodes_view(children@) =~= Seq::<NodeView>::empty());
                stack.push((tag.clone(), children));
                assert(open_view(stack@) =~= os.push((tag@, Seq::empty())));
            },
            Token::Close(tag) => {
                match stack.pop() {
                    Some(top) => {
                        let (name, children) = top;
                        proof {
                            lemma_element_view(name, children);
                        }
                        assert(open_view(stack@) =~= os.drop_last());
                        attach_node(&mut roots, &mut stack, Node::Element { name, children });
                    },
                    None => {
                        let name = tag.clone();
                        let children: Vec<Node> = Vec::new();
                        proof {
                            lemma_element_view(name, children);
                        }
                        assert(nodes_view(children@) =~= Seq::<NodeView>::empty());
                        roots.push(Node::Element { name, children });
                        assert(nodes_view(roots@) =~= rs.push(
                            NodeView::Element { name: tag@, children: Seq::empty() },
                        ));
                    },
                }
            },
            Token::Text(text) => {
                attach_node(&mut roots, &mut stack, Node::Text(text.clone()));
            },
        }
        i = i + 1;
    }
    assert(ts.take(ts.len() as int) =~= ts);
    while stack.len() > 0
        invariant
            close_all(nodes_view(roots@), open_view(stack@)) == markup_of(input@),
        decreases stack@.len(),
    {
        let ghost os = open_view(stack@);
        let ghost rs = nodes_view(roots@);
        match stack.pop() {
            Some(top) => {
                let (name, children) = top;
                proof {
                    lemma_element_view(name, children);
                }
                assert(open_view(stack@) =~= os.drop_last());
                roots.push(Node::Element { name, children });
                assert(nodes_view(roots@) =~= rs.push(
                    NodeView::Element { name: os.last().0, children: os.last().1 },
                ));
            },
            None => {},
        }
    }
    Document { roots }
}

} // verus!
