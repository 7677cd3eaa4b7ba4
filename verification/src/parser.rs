//! The parser: a token stream to a tree of blocks and lists. The shape of
//! the tree follows from the block starts and ends alone.

use vstd::prelude::*;
use crate::error::LedgerError;
use crate::lexer::{pending_stream, source_stream, Lexer, LexerView, TokenStream};
use crate::token::{lemma_tokens_view_push, tokens_view, Token, TokenView};

verus! {

/// A node of the untyped tree: a block with its header and children, or a
/// list of tokens.
#[derive(Debug, PartialEq, Eq)]
pub enum Node {
    Block(Vec<Token>, Vec<Node>),
    List(Vec<Token>),
}

/// A node as a mathematical value.
pub enum NodeView {
    Block(Seq<TokenView>, Seq<NodeView>),
    List(Seq<TokenView>),
}

impl View for Node {
    type V = NodeView;

    open spec fn view(&self) -> NodeView
        decreases self,
    {
        match self {
            Node::Block(h, c) => NodeView::Block(
                tokens_view(h@),
                Seq::new(
                    c.len() as nat,
                    |i: int|
                        if 0 <= i < c.len() {
                            c[i]@
                        } else {
                            NodeView::List(Seq::empty())
                        },
                ),
            ),
            Node::List(l) => NodeView::List(tokens_view(l@)),
        }
    }
}

/// The views of a sequence of nodes.
pub open spec fn nodes_view(s: Seq<Node>) -> Seq<NodeView> {
    Seq::new(s.len(), |i: int| s[i]@)
}

/// The view of a block: the views of its header and of its children.
pub proof fn lemma_block_view(h: Vec<Token>, c: Vec<Node>)
    ensures
        Node::Block(h, c)@ == NodeView::Block(tokens_view(h@), nodes_view(c@)),
{
    assert(Node::Block(h, c)@->Block_1 =~= nodes_view(c@));
}

/// The views of a sequence of nodes with one more node.
pub proof fn lemma_nodes_view_push(s: Seq<Node>, n: Node)
    ensures
        nodes_view(s.push(n)) == nodes_view(s).push(n@),
{
    assert(nodes_view(s.push(n)) =~= nodes_view(s).push(n@));
}

impl NodeView {
    /// The block with one more child at its end. A list has no children
    /// and stays as it is.
    pub open spec fn with_child(self, c: NodeView) -> NodeView {
        match self {
            NodeView::Block(h, cs) => NodeView::Block(h, cs.push(c)),
            NodeView::List(l) => NodeView::List(l),
        }
    }
}

impl Node {
    /// Adds a child at the end of a block.
    pub fn push_child(&mut self, c: Node)
        requires
            *old(self) is Block,
        ensures
            final(self)@ == old(self)@.with_child(c@),
            *final(self) is Block,
    {
        match self {
            Node::Block(h, b) => {
                proof {
                    lemma_block_view(*h, *b);
                    lemma_nodes_view_push(b@, c);
                }
                b.push(c);
                proof {
                    lemma_block_view(*h, *b);
                }
            },
            Node::List(_) => {},
        }
    }
}

/// The state of tree building: the blocks that are open, innermost last;
/// the tokens read since the last structural token; and the finished
/// top-level nodes.
pub struct ParseState {
    pub stack: Seq<NodeView>,
    pub header: Seq<TokenView>,
    pub result: Seq<NodeView>,
}

/// What one token does to the state.
pub enum Step {
    Continue(ParseState),
    Done(Seq<NodeView>),
    Fail(LedgerError),
}

/// Adds a finished node to the innermost open block, or to the top-level
/// nodes if no block is open.
pub open spec fn attach(st: ParseState, n: NodeView) -> ParseState {
    if st.stack.len() > 0 {
        ParseState {
            stack: st.stack.drop_last().push(st.stack.last().with_child(n)),
            ..st
        }
    } else {
        ParseState { result: st.result.push(n), ..st }
    }
}

/// Turns the pending tokens, if there are any, into a list node.
pub open spec fn flush(st: ParseState) -> ParseState {
    if st.header.len() > 0 {
        ParseState { header: Seq::empty(), ..attach(st, NodeView::List(st.header)) }
    } else {
        st
    }
}

/// The effect of one token. A block start opens a block headed by the
/// pending tokens. A block end closes the innermost block, after the
/// pending tokens have become its last child; with no block open it is an
/// error. A separator turns the pending tokens into a list. The end
/// marker finishes: pending tokens become a last top-level list, and
/// blocks that are still open are dropped. Any other token is pending.
pub open spec fn step(st: ParseState, tok: TokenView) -> Step {
    match tok.normalise() {
        TokenView::BlockStart(_) => Step::Continue(
            ParseState {
                stack: st.stack.push(NodeView::Block(st.header, Seq::empty())),
                header: Seq::empty(),
                result: st.result,
            },
        ),
        TokenView::BlockEnd(_) => if st.stack.len() == 0 {
            Step::Fail(LedgerError::UnmatchedBlockEnd)
        } else {
            let f = flush(st);
            Step::Continue(attach(ParseState { stack: f.stack.drop_last(), ..f }, f.stack.last()))
        },
        TokenView::Semicolon => Step::Continue(flush(st)),
        TokenView::EOF => Step::Done(
            if st.header.len() > 0 {
                st.result.push(NodeView::List(st.header))
            } else {
                st.result
            },
        ),
        t => Step::Continue(ParseState { header: st.header.push(t), ..st }),
    }
}

/// What the tokens from position `i` on do to state `st`: they finish the
/// tree, or fail, or run out and leave a state.
pub open spec fn feed(tokens: Seq<TokenView>, i: int, st: ParseState) -> Step
    decreases tokens.len() - i,
{
    if i < 0 || i >= tokens.len() {
        Step::Continue(st)
    } else {
        match step(st, tokens[i]) {
            Step::Continue(next) => feed(tokens, i + 1, next),
            Step::Done(r) => Step::Done(r),
            Step::Fail(e) => Step::Fail(e),
        }
    }
}

/// The state in which no token is read yet.
pub open spec fn initial_state() -> ParseState {
    ParseState { stack: Seq::empty(), header: Seq::empty(), result: Seq::empty() }
}

/// The top-level nodes of a stream. What comes first in the stream
/// decides: the end marker, a block end that closes nothing, or the
/// error that cuts the stream short. Tokens that run out without any of
/// these leave the nodes that are finished.
pub open spec fn tree_of_stream(s: TokenStream) -> Result<Seq<NodeView>, LedgerError> {
    match feed(s.tokens, 0, initial_state()) {
        Step::Done(r) => Ok(r),
        Step::Fail(e) => Err(e),
        Step::Continue(st) => match s.error {
            Some(e) => Err(e),
            None => Ok(st.result),
        },
    }
}

/// The top-level nodes of a sequence of tokens.
pub open spec fn tree_of_tokens(tokens: Seq<TokenView>) -> Result<Seq<NodeView>, LedgerError> {
    tree_of_stream(TokenStream { tokens, error: None })
}

/// The top-level nodes of a source text.
pub open spec fn tree_of_source(source: Seq<char>) -> Result<Seq<NodeView>, LedgerError> {
    tree_of_stream(source_stream(source))
}

/// Whether every node is a block.
pub open spec fn all_blocks(s: Seq<NodeView>) -> bool {
    forall|i: int| 0 <= i < s.len() ==> #[trigger] s[i] is Block
}

/// Adds a node to the innermost open block or to the top-level nodes.
fn attach_node(stack: &mut Vec<Node>, result: &mut Vec<Node>, n: Node)
    requires
        all_blocks(nodes_view(old(stack)@)),
    ensures
        all_blocks(nodes_view(final(stack)@)),
        attach(
            ParseState {
                stack: nodes_view(old(stack)@),
                header: Seq::empty(),
                result: nodes_view(old(result)@),
            },
            n@,
        ) == (ParseState {
            stack: nodes_view(final(stack)@),
            header: Seq::empty(),
            result: nodes_view(final(result)@),
        }),
{
    let ghost stack0 = nodes_view(stack@);
    if stack.len() > 0 {
        let last = stack.len() - 1;
        assert(stack@[last as int]@ == stack0.last());
        assert(stack0[stack0.len() - 1] is Block);
        stack[last].push_child(n);
        proof {
            let s = nodes_view(stack@);
            assert(s =~= stack0.drop_last().push(stack0.last().with_child(n@)));
            assert forall|i: int| 0 <= i < s.len() implies #[trigger] s[i] is Block by {
                if i < s.len() - 1 {
                    assert(s[i] == stack0[i]);
                }
            }
        }
    } else {
        proof {
            lemma_nodes_view_push(result@, n);
            assert(nodes_view(stack@) =~= stack0);
        }
        result.push(n);
    }
}

/// Builds the tree of a sequence of tokens.
pub fn parse_tokens(tokens: &Vec<Token>) -> (r: Result<Vec<Node>, LedgerError>)
    ensures
        match r {
            Ok(nodes) => tree_of_tokens(tokens_view(tokens@)) == Ok::<Seq<NodeView>, LedgerError>(
                nodes_view(nodes@),
            ),
            Err(e) => tree_of_tokens(tokens_view(tokens@)) == Err::<Seq<NodeView>, LedgerError>(e),
        },
{
    parse_stream(tokens, None)
}

/// Builds the tree of a stream: of its tokens and the error that cuts
/// them short, if there is one.
pub fn parse_stream(tokens: &Vec<Token>, error: Option<LedgerError>) -> (r: Result<
    Vec<Node>,
    LedgerError,
>)
    ensures
        match r {
            Ok(nodes) => tree_of_stream(TokenStream { tokens: tokens_view(tokens@), error }) == Ok::<
                Seq<NodeView>,
                LedgerError,
            >(nodes_view(nodes@)),
            Err(e) => tree_of_stream(TokenStream { tokens: tokens_view(tokens@), error }) == Err::<
                Seq<NodeView>,
                LedgerError,
            >(e),
        },
{
    let mut stack: Vec<Node> = Vec::new();
    let mut header: Vec<Token> = Vec::new();
    let mut result: Vec<Node> = Vec::new();
    let ghost all = tokens_view(tokens@);
    let mut i: usize = 0;
    proof {
        assert(nodes_view(stack@) =~= Seq::<NodeView>::empty());
        assert(nodes_view(result@) =~= Seq::<NodeView>::empty());
        assert(tokens_view(header@) =~= Seq::<TokenView>::empty());
    }
    while i < tokens.len()
        invariant
            i <= tokens.len(),
            all == tokens_view(tokens@),
            all_blocks(nodes_view(stack@)),
            feed(all, 0, initial_state()) == feed(
                all,
                i as int,
                ParseState {
                    stack: nodes_view(stack@),
                    header: tokens_view(header@),
                    result: nodes_view(result@),
                },
            ),
        decreases tokens.len() - i,
    {
        let ghost st = ParseState {
            stack: nodes_view(stack@),
            header: tokens_view(header@),
            result: nodes_view(result@),
        };
        assert(all[i as int] == tokens@[i as int]@);
        let tok = tokens[i].normalise();
        match tok {
            Token::BlockStart(_) => {
                let mut h: Vec<Token> = Vec::new();
                core::mem::swap(&mut h, &mut header);
                let children: Vec<Node> = Vec::new();
                let block = Node::Block(h, children);
                proof {
                    lemma_block_view(h, children);
                    assert(nodes_view(children@) =~= Seq::<NodeView>::empty());
                    lemma_nodes_view_push(stack@, block);
                    assert(tokens_view(header@) =~= Seq::<TokenView>::empty());
                }
                stack.push(block);
                proof {
                    let s = nodes_view(stack@);
                    assert forall|k: int| 0 <= k < s.len() implies #[trigger] s[k] is Block by {
                        if k < s.len() - 1 {
                            assert(s[k] == st.stack[k]);
                        }
                    }
                }
            },
            Token::BlockEnd(_) => {
                if stack.len() == 0 {
                    return Err(LedgerError::UnmatchedBlockEnd);
                }
                if header.len() > 0 {
                    let mut h: Vec<Token> = Vec::new();
                    core::mem::swap(&mut h, &mut header);
                    proof {
                        assert(tokens_view(header@) =~= Seq::<TokenView>::empty());
                    }
                    attach_node(&mut stack, &mut result, Node::List(h));
                }
                assert(stack.len() > 0);
                let ghost f = flush(st);
                assert(f.stack == nodes_view(stack@));
                let top = stack.pop().unwrap();
                proof {
                    assert(nodes_view(stack@) =~= f.stack.drop_last());
                    assert(top@ == f.stack.last());
                    assert(all_blocks(nodes_view(stack@))) by {
                        let s = nodes_view(stack@);
                        assert forall|k: int| 0 <= k < s.len() implies #[trigger] s[k] is Block by {
                            assert(s[k] == f.stack[k]);
                        }
                    }
                }
                attach_node(&mut stack, &mut result, top);
            },
            Token::Semicolon => {
                if header.len() > 0 {
                    let mut h: Vec<Token> = Vec::new();
                    core::mem::swap(&mut h, &mut header);
                    proof {
                        assert(tokens_view(header@) =~= Seq::<TokenView>::empty());
                    }
                    attach_node(&mut stack, &mut result, Node::List(h));
                }
            },
            Token::EOF => {
                if header.len() > 0 {
                    proof {
                        lemma_nodes_view_push(result@, Node::List(header));
                    }
                    result.push(Node::List(header));
                }
                return Ok(result);
            },
            t => {
                proof {
                    lemma_tokens_view_push(header@, t);
                }
                header.push(t);
            },
        }
        i = i + 1;
    }
    match error {
        Some(e) => Err(e),
        None => Ok(result),
    }
}

/// A parser over a source text.
pub struct Parser {
    lexer: Lexer,
}

impl View for Parser {
    type V = LexerView;

    closed spec fn view(&self) -> LexerView {
        self.lexer@
    }
}

/// The state of a lexer that has nothing left but the end marker.
pub open spec fn exhausted() -> LexerView {
    LexerView { lines: Seq::empty(), cursor: 0, indents: Seq::empty(), queue: Seq::empty() }
}

impl Parser {
    /// A parser at the start of a source text.
    pub fn new(source: &str) -> (parser: Parser)
        ensures
            pending_stream(parser@) == source_stream(source@),
    {
        let parser = Parser { lexer: Lexer::new(source) };
        proof {
            assert(Seq::<TokenView>::empty() + source_stream(source@).tokens =~= source_stream(
                source@,
            ).tokens);
        }
        parser
    }

    /// Reads all tokens that are left and builds their tree. Nothing is
    /// left to read afterwards.
    pub fn parse(&mut self) -> (r: Result<Vec<Node>, LedgerError>)
        ensures
            final(self)@ == exhausted(),
            match r {
                Ok(nodes) => tree_of_stream(pending_stream(old(self)@)) == Ok::<
                    Seq<NodeView>,
                    LedgerError,
                >(nodes_view(nodes@)),
                Err(e) => tree_of_stream(pending_stream(old(self)@)) == Err::<
                    Seq<NodeView>,
                    LedgerError,
                >(e),
            },
    {
        let mut lexer = Lexer::new("");
        proof {
            reveal_strlit("");
            assert(lexer@.lines =~= Seq::<Seq<char>>::empty());
        }
        core::mem::swap(&mut self.lexer, &mut lexer);
        let (tokens, error) = lexer.scan();
        parse_stream(&tokens, error)
    }
}

/// Parses a source text.
pub fn parse_source(source: &str) -> (r: Result<Vec<Node>, LedgerError>)
    ensures
        match r {
            Ok(nodes) => tree_of_source(source@) == Ok::<Seq<NodeView>, LedgerError>(
                nodes_view(nodes@),
            ),
            Err(e) => tree_of_source(source@) == Err::<Seq<NodeView>, LedgerError>(e),
        },
{
    let mut parser = Parser::new(source);
    parser.parse()
}

} // verus!
