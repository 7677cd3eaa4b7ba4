//! A small builder of HTML trees and their rendering to text.

use vstd::prelude::*;
use vstd::string::StringExecFns;
use crate::chars::spaces;

verus! {

enum HtmlNode {
    Element { tag: String, children: Vec<HtmlNode>, attributes: Vec<(String, String)>, void: bool },
    Raw(String),
    Document(Vec<HtmlNode>),
}

/// An HTML tree: an element, a document, or text that is written as it is.
pub struct Html(HtmlNode);

/// An HTML tree as a mathematical value.
pub enum HtmlView {
    Element {
        tag: Seq<char>,
        children: Seq<HtmlView>,
        attributes: Seq<(Seq<char>, Seq<char>)>,
        void: bool,
    },
    Raw(Seq<char>),
    Document(Seq<HtmlView>),
}

/// The attributes as pairs of texts.
pub open spec fn attributes_view(s: Seq<(String, String)>) -> Seq<(Seq<char>, Seq<char>)> {
    Seq::new(s.len(), |i: int| (s[i].0@, s[i].1@))
}

spec fn node_view(n: HtmlNode) -> HtmlView
    decreases n,
{
    match n {
        HtmlNode::Element { tag, children, attributes, void } => HtmlView::Element {
            tag: tag@,
            children: Seq::new(
                children.len() as nat,
                |i: int|
                    if 0 <= i < children.len() {
                        node_view(children[i])
                    } else {
                        HtmlView::Raw(Seq::empty())
                    },
            ),
            attributes: attributes_view(attributes@),
            void,
        },
        HtmlNode::Raw(s) => HtmlView::Raw(s@),
        HtmlNode::Document(children) => HtmlView::Document(
            Seq::new(
                children.len() as nat,
                |i: int|
                    if 0 <= i < children.len() {
                        node_view(children[i])
                    } else {
                        HtmlView::Raw(Seq::empty())
                    },
            ),
        ),
    }
}

spec fn children_view(s: Seq<HtmlNode>) -> Seq<HtmlView> {
    Seq::new(s.len(), |i: int| node_view(s[i]))
}

proof fn lemma_element_view(
    tag: String,
    children: Vec<HtmlNode>,
    attributes: Vec<(String, String)>,
    void: bool,
)
    ensures
        node_view(HtmlNode::Element { tag, children, attributes, void }) == (HtmlView::Element {
            tag: tag@,
            children: children_view(children@),
            attributes: attributes_view(attributes@),
            void,
        }),
{
    assert(node_view(HtmlNode::Element { tag, children, attributes, void })->children
        =~= children_view(children@));
}

proof fn lemma_document_view(children: Vec<HtmlNode>)
    ensures
        node_view(HtmlNode::Document(children)) == HtmlView::Document(children_view(children@)),
{
    assert(node_view(HtmlNode::Document(children))->Document_0 =~= children_view(children@));
}

impl View for Html {
    type V = HtmlView;

    closed spec fn view(&self) -> HtmlView {
        node_view(self.0)
    }
}

// ---------------------------------------------------------------------
// Escaping
// ---------------------------------------------------------------------

/// What stands for a character in HTML text.
pub open spec fn escaped_char(c: char) -> Seq<char> {
    if c == '&' {
        seq!['&', 'a', 'm', 'p', ';']
    } else if c == '<' {
        seq!['&', 'l', 't', ';']
    } else if c == '>' {
        seq!['&', 'g', 't', ';']
    } else {
        seq![c]
    }
}

/// A text with `&`, `<` and `>` replaced by their entities.
pub open spec fn escaped(s: Seq<char>) -> Seq<char>
    decreases s.len(),
{
    if s.len() == 0 {
        Seq::empty()
    } else {
        escaped(s.drop_last()) + escaped_char(s.last())
    }
}

/// Escapes text with `html_escape::encode_text`, which replaces each
/// `&` by `&amp;`, each `<` by `&lt;` and each `>` by `&gt;`, and leaves
/// every other character as it is.
#[verifier::external_body]
fn escape_text(s: &str) -> (r: String)
    ensures
        r@ == escaped(s@),
{
    html_escape::encode_text(s).to_string()
}

// ---------------------------------------------------------------------
// Attributes
// ---------------------------------------------------------------------

/// The position of the first attribute named `k` at or after `from`, or
/// the number of attributes if there is none.
pub open spec fn attribute_index(
    attributes: Seq<(Seq<char>, Seq<char>)>,
    k: Seq<char>,
    from: int,
) -> int
    decreases attributes.len() - from,
{
    if from < 0 || from >= attributes.len() {
        attributes.len() as int
    } else if attributes[from].0 == k {
        from
    } else {
        attribute_index(attributes, k, from + 1)
    }
}

/// The attributes after `k` is set to `v`. The first attribute of that
/// name gets the new value, or with `push` its old value, a space and
/// the new one; if there is none, the attribute is added at the end.
pub open spec fn with_attribute_set(
    attributes: Seq<(Seq<char>, Seq<char>)>,
    k: Seq<char>,
    v: Seq<char>,
    push: bool,
) -> Seq<(Seq<char>, Seq<char>)> {
    let i = attribute_index(attributes, k, 0);
    if i < attributes.len() {
        attributes.update(
            i,
            (
                attributes[i].0,
                if push {
                    attributes[i].1 + seq![' '] + v
                } else {
                    v
                },
            ),
        )
    } else {
        attributes.push((k, v))
    }
}

impl HtmlView {
    /// The tree with one more child at its end. Raw text has no children
    /// and stays as it is.
    pub open spec fn with_child(self, c: HtmlView) -> HtmlView {
        match self {
            HtmlView::Element { tag, children, attributes, void } => HtmlView::Element {
                tag,
                children: children.push(c),
                attributes,
                void,
            },
            HtmlView::Raw(s) => HtmlView::Raw(s),
            HtmlView::Document(children) => HtmlView::Document(children.push(c)),
        }
    }

    /// The element with an attribute set.
    pub open spec fn with_attribute(self, k: Seq<char>, v: Seq<char>, push: bool) -> HtmlView {
        match self {
            HtmlView::Element { tag, children, attributes, void } => HtmlView::Element {
                tag,
                children,
                attributes: with_attribute_set(attributes, k, v, push),
                void,
            },
            other => other,
        }
    }

    /// An element without children or attributes.
    pub open spec fn element(tag: Seq<char>, void: bool) -> HtmlView {
        HtmlView::Element { tag, children: Seq::empty(), attributes: Seq::empty(), void }
    }

    /// A `div` element of the given class.
    pub open spec fn div(class: Seq<char>) -> HtmlView {
        HtmlView::Element {
            tag: seq!['d', 'i', 'v'],
            children: Seq::empty(),
            attributes: seq![(seq!['c', 'l', 'a', 's', 's'], class)],
            void: false,
        }
    }
}

// ---------------------------------------------------------------------
// Rendering
// ---------------------------------------------------------------------

/// The attributes from position `i` on as they stand in a start tag.
pub open spec fn attributes_text(attributes: Seq<(Seq<char>, Seq<char>)>, i: int) -> Seq<char>
    decreases attributes.len() - i,
{
    if i < 0 || i >= attributes.len() {
        Seq::empty()
    } else {
        seq![' '] + attributes[i].0 + seq!['=', '"'] + attributes[i].1 + seq!['"']
            + attributes_text(attributes, i + 1)
    }
}

/// The text of a tree. With `pretty`, each node stands on a line of its
/// own, indented by two spaces for each level.
pub open spec fn rendered(n: HtmlView, pretty: bool, level: nat) -> Seq<char>
    decreases n, 0nat,
{
    let indent = if pretty {
        spaces(level * 2)
    } else {
        Seq::empty()
    };
    match n {
        HtmlView::Element { tag, children, attributes, void } => {
            let start = indent + seq!['<'] + tag + attributes_text(attributes, 0);
            if void {
                start + seq![' ', '/', '>']
            } else {
                let inner = rendered_children(children, 0, pretty, level + 1);
                let end = seq!['<', '/'] + tag + seq!['>'];
                if pretty && inner.len() > 0 {
                    start + seq!['>'] + seq!['\n'] + inner + seq!['\n'] + indent + end
                } else if pretty {
                    start + seq!['>'] + end
                } else {
                    start + seq!['>'] + inner + end
                }
            }
        },
        HtmlView::Raw(s) => indent + s,
        HtmlView::Document(children) => rendered_children(children, 0, pretty, 0),
    }
}

/// The texts of the trees from position `i` on, one line feed between
/// each two.
pub open spec fn rendered_children(cs: Seq<HtmlView>, i: int, pretty: bool, level: nat) -> Seq<
    char,
>
    decreases cs, cs.len() - i,
{
    if i < 0 || i >= cs.len() {
        Seq::empty()
    } else if i + 1 < cs.len() {
        rendered(cs[i], pretty, level) + seq!['\n'] + rendered_children(cs, i + 1, pretty, level)
    } else {
        rendered(cs[i], pretty, level)
    }
}

impl HtmlNode {
    fn new(tag: &str) -> (r: HtmlNode)
        ensures
            node_view(r) == HtmlView::element(tag@, false),
    {
        let children: Vec<HtmlNode> = Vec::new();
        let attributes: Vec<(String, String)> = Vec::new();
        let t = String::from_str(tag);
        proof {
            lemma_element_view(t, children, attributes, false);
            assert(children_view(children@) =~= Seq::<HtmlView>::empty());
            assert(attributes_view(attributes@) =~= Seq::<(Seq<char>, Seq<char>)>::empty());
        }
        HtmlNode::Element { tag: t, children, attributes, void: false }
    }

    fn new_void(tag: &str) -> (r: HtmlNode)
        ensures
            node_view(r) == HtmlView::element(tag@, true),
    {
        let children: Vec<HtmlNode> = Vec::new();
        let attributes: Vec<(String, String)> = Vec::new();
        let t = String::from_str(tag);
        proof {
            lemma_element_view(t, children, attributes, true);
            assert(children_view(children@) =~= Seq::<HtmlView>::empty());
            assert(attributes_view(attributes@) =~= Seq::<(Seq<char>, Seq<char>)>::empty());
        }
        HtmlNode::Element { tag: t, children, attributes, void: true }
    }

    fn document() -> (r: HtmlNode)
        ensures
            node_view(r) == HtmlView::Document(Seq::empty()),
    {
        let children: Vec<HtmlNode> = Vec::new();
        proof {
            lemma_document_view(children);
            assert(children_view(children@) =~= Seq::<HtmlView>::empty());
        }
        HtmlNode::Document(children)
    }

    fn push_child(&mut self, child: HtmlNode)
        ensures
            node_view(*final(self)) == node_view(*old(self)).with_child(node_view(child)),
    {
        match self {
            HtmlNode::Element { tag, children, attributes, void } => {
                proof {
                    lemma_element_view(*tag, *children, *attributes, *void);
                    assert(children_view(children@.push(child)) =~= children_view(children@).push(
                        node_view(child),
                    ));
                }
                children.push(child);
                proof {
                    lemma_element_view(*tag, *children, *attributes, *void);
                }
            },
            HtmlNode::Document(children) => {
                proof {
                    lemma_document_view(*children);
                    assert(children_view(children@.push(child)) =~= children_view(children@).push(
                        node_view(child),
                    ));
                }
                children.push(child);
                proof {
                    lemma_document_view(*children);
                }
            },
            HtmlNode::Raw(_) => {},
        }
    }

    fn push_text(&mut self, text: String)
        ensures
            node_view(*final(self)) == node_view(*old(self)).with_child(
                HtmlView::Raw(escaped(text@)),
            ),
    {
        self.push_child(HtmlNode::Raw(escape_text(text.as_str())));
    }

    fn push_raw(&mut self, text: String)
        ensures
            node_view(*final(self)) == node_view(*old(self)).with_child(HtmlView::Raw(text@)),
    {
        self.push_child(HtmlNode::Raw(text));
    }

    fn set_attribute(&mut self, k: String, v: String, push: bool)
        ensures
            node_view(*final(self)) == node_view(*old(self)).with_attribute(k@, v@, push),
    {
        match self {
            HtmlNode::Element { tag, children, attributes, void } => {
                proof {
                    lemma_element_view(*tag, *children, *attributes, *void);
                }
                let ghost before = attributes_view(attributes@);
                let mut i: usize = 0;
                while i < attributes.len() && !(attributes[i].0 == k)
                    invariant
                        i <= attributes.len(),
                        before == attributes_view(attributes@),
                        attribute_index(before, k@, 0) == attribute_index(before, k@, i as int),
                    decreases attributes.len() - i,
                {
                    assert(before[i as int].0 == attributes@[i as int].0@);
                    i = i + 1;
                }
                if i < attributes.len() {
                    assert(before[i as int].0 == attributes@[i as int].0@);
                    assert(before[i as int].1 == attributes@[i as int].1@);
                    if push {
                        attributes[i].1.push(' ');
                        attributes[i].1.append(v.as_str());
                    } else {
                        attributes[i].1 = v;
                    }
                    proof {
                        let after = attributes_view(attributes@);
                        let wanted = with_attribute_set(before, k@, v@, push);
                        assert(after.len() == wanted.len());
                        assert(after[i as int].1 =~= wanted[i as int].1);
                        assert forall|j: int| 0 <= j < after.len() implies after[j] == wanted[j] by {
                            if j != i {
                                assert(after[j] == before[j]);
                            }
                        }
                        assert(after =~= wanted);
                    }
                } else {
                    attributes.push((k, v));
                    proof {
                        assert(attributes_view(attributes@) =~= with_attribute_set(
                            before,
                            k@,
                            v@,
                            push,
                        ));
                    }
                }
                proof {
                    lemma_element_view(*tag, *children, *attributes, *void);
                }
            },
            _ => {},
        }
    }

    /// Appends the attributes as they stand in a start tag.
    fn render_attributes(attributes: &Vec<(String, String)>, out: &mut String)
        ensures
            final(out)@ == old(out)@ + attributes_text(attributes_view(attributes@), 0),
    {
        let ghost out0 = out@;
        let ghost attrs = attributes_view(attributes@);
        let mut i: usize = 0;
        while i < attributes.len()
            invariant
                i <= attributes.len(),
                attrs == attributes_view(attributes@),
                out@ + attributes_text(attrs, i as int) == out0 + attributes_text(attrs, 0),
            decreases attributes.len() - i,
        {
            let ghost before = out@;
            assert(attrs[i as int].0 == attributes@[i as int].0@);
            assert(attrs[i as int].1 == attributes@[i as int].1@);
            out.push(' ');
            out.append(attributes[i].0.as_str());
            out.push('=');
            out.push('"');
            out.append(attributes[i].1.as_str());
            out.push('"');
            proof {
                let rest = attributes_text(attrs, i + 1);
                let one = seq![' '] + attrs[i as int].0 + seq!['=', '"'] + attrs[i as int].1 + seq![
                    '"',
                ];
                assert(out@ =~= before + one);
                assert(out@ + rest =~= before + (one + rest));
            }
            i = i + 1;
        }
        proof {
            assert(out@ + Seq::<char>::empty() =~= out@);
        }
    }

    /// Appends an element that is not void.
    fn render_element(
        tag: &String,
        children: &Vec<HtmlNode>,
        attributes: &Vec<(String, String)>,
        out: &mut String,
        pretty: bool,
        indent: &String,
        Ghost(level): Ghost<nat>,
    )
        requires
            pretty ==> indent@ == spaces(level * 2),
        ensures
            final(out)@ == old(out)@ + rendered(
                HtmlView::Element {
                    tag: tag@,
                    children: children_view(children@),
                    attributes: attributes_view(attributes@),
                    void: false,
                },
                pretty,
                level,
            ),
        decreases children, 2nat,
    {
        let ghost out0 = out@;
        let ghost lead = if pretty {
            spaces(level * 2)
        } else {
            Seq::<char>::empty()
        };
        let ghost start = lead + seq!['<'] + tag@ + attributes_text(
            attributes_view(attributes@),
            0,
        );
        let ghost end = seq!['<', '/'] + tag@ + seq!['>'];
        let mut deeper = String::new();
        if pretty {
            deeper.append(indent.as_str());
            deeper.push(' ');
            deeper.push(' ');
            proof {
                assert(deeper@ =~= spaces((level + 1) * 2));
            }
        }
        let mut inner = String::new();
        HtmlNode::render_children(children, &mut inner, pretty, &deeper, Ghost(level + 1));
        proof {
            assert(inner@ =~= rendered_children(children_view(children@), 0, pretty, level + 1));
        }
        let mut text = String::new();
        if pretty {
            text.append(indent.as_str());
        }
        text.push('<');
        text.append(tag.as_str());
        HtmlNode::render_attributes(attributes, &mut text);
        assert(text@ =~= start);
        text.push('>');
        if pretty && !inner.as_str().is_empty() {
            text.push('\n');
            text.append(inner.as_str());
            text.push('\n');
            text.append(indent.as_str());
            assert(text@ =~= start + seq!['>'] + seq!['\n'] + inner@ + seq!['\n'] + lead);
        } else {
            text.append(inner.as_str());
            assert(text@ =~= start + seq!['>'] + inner@);
        }
        text.push('<');
        text.push('/');
        text.append(tag.as_str());
        text.push('>');
        proof {
            if pretty && inner@.len() > 0 {
                assert(text@ =~= start + seq!['>'] + seq!['\n'] + inner@ + seq!['\n'] + lead + end);
            } else if pretty {
                assert(text@ =~= start + seq!['>'] + end);
            } else {
                assert(text@ =~= start + seq!['>'] + inner@ + end);
            }
        }
        out.append(text.as_str());
    }

    /// Appends the text of the tree. With `pretty`, `indent` holds the
    /// indentation of the tree's level.
    fn render(&self, out: &mut String, pretty: bool, indent: &String, Ghost(level): Ghost<nat>)
        requires
            pretty ==> indent@ == spaces(level * 2),
        ensures
            final(out)@ == old(out)@ + rendered(node_view(*self), pretty, level),
        decreases self, 0nat,
    {
        let ghost out0 = out@;
        let ghost lead = if pretty {
            spaces(level * 2)
        } else {
            Seq::<char>::empty()
        };
        match self {
            HtmlNode::Element { tag, children, attributes, void } => {
                proof {
                    lemma_element_view(*tag, *children, *attributes, *void);
                }
                if *void {
                    let mut text = String::new();
                    if pretty {
                        text.append(indent.as_str());
                    }
                    text.push('<');
                    text.append(tag.as_str());
                    HtmlNode::render_attributes(attributes, &mut text);
                    text.push(' ');
                    text.push('/');
                    text.push('>');
                    proof {
                        assert(text@ =~= lead + seq!['<'] + tag@ + attributes_text(
                            attributes_view(attributes@),
                            0,
                        ) + seq![' ', '/', '>']);
                    }
                    out.append(text.as_str());
                } else {
                    HtmlNode::render_element(
                        tag,
                        children,
                        attributes,
                        out,
                        pretty,
                        indent,
                        Ghost(level),
                    );
                }
            },
            HtmlNode::Raw(s) => {
                let mut text = String::new();
                if pretty {
                    text.append(indent.as_str());
                }
                text.append(s.as_str());
                proof {
                    assert(text@ =~= lead + s@);
                }
                out.append(text.as_str());
            },
            HtmlNode::Document(children) => {
                proof {
                    lemma_document_view(*children);
                    assert(spaces(0) =~= Seq::<char>::empty());
                }
                let none = String::new();
                HtmlNode::render_children(children, out, pretty, &none, Ghost(0));
            },
        }
    }

    /// Appends the texts of the trees, one line feed between each two.
    fn render_children(
        children: &Vec<HtmlNode>,
        out: &mut String,
        pretty: bool,
        indent: &String,
        Ghost(level): Ghost<nat>,
    )
        requires
            pretty ==> indent@ == spaces(level * 2),
        ensures
            final(out)@ == old(out)@ + rendered_children(
                children_view(children@),
                0,
                pretty,
                level,
            ),
        decreases children, 1nat,
    {
        let ghost out0 = out@;
        let ghost cs = children_view(children@);
        let mut i: usize = 0;
        while i < children.len()
            invariant
                i <= children.len(),
                pretty ==> indent@ == spaces(level * 2),
                cs == children_view(children@),
                out@ + rendered_children(cs, i as int, pretty, level) == out0 + rendered_children(
                    cs,
                    0,
                    pretty,
                    level,
                ),
            decreases children.len() - i,
        {
            let ghost before = out@;
            assert(cs[i as int] == node_view(children@[i as int]));
            children[i].render(out, pretty, indent, Ghost(level));
            if i + 1 < children.len() {
                out.push('\n');
                proof {
                    let rest = rendered_children(cs, i + 1, pretty, level);
                    assert(out@ + rest =~= before + (rendered(cs[i as int], pretty, level) + seq![
                        '\n',
                    ] + rest));
                }
            } else {
                proof {
                    let rest = rendered_children(cs, i + 1, pretty, level);
                    assert(out@ + rest =~= before + rendered(cs[i as int], pretty, level));
                }
            }
            i = i + 1;
        }
        proof {
            assert(out@ + Seq::<char>::empty() =~= out@);
        }
    }
}

impl Html {
    /// An element without children or attributes.
    pub fn new(tag: &str) -> (r: Html)
        ensures
            r@ == HtmlView::element(tag@, false),
    {
        Html(HtmlNode::new(tag))
    }

    /// A `div` element of the given class.
    pub fn div_with_class(class: &str) -> (r: Html)
        ensures
            r@ == HtmlView::div(class@),
    {
        let elem = Html::new("div").with_class(class);
        proof {
            reveal_strlit("div");
            reveal_strlit("class");
            assert("div"@ =~= seq!['d', 'i', 'v']);
            assert("class"@ =~= seq!['c', 'l', 'a', 's', 's']);
            assert(with_attribute_set(Seq::empty(), "class"@, class@, true) =~= seq![
                ("class"@, class@),
            ]);
        }
        elem
    }

    /// An element that has no content and no end tag.
    pub fn new_void(tag: &str) -> (r: Html)
        ensures
            r@ == HtmlView::element(tag@, true),
    {
        Html(HtmlNode::new_void(tag))
    }

    /// A document without children.
    pub fn document() -> (r: Html)
        ensures
            r@ == HtmlView::Document(Seq::empty()),
    {
        Html(HtmlNode::document())
    }

    /// Adds a child at the end.
    pub fn push_child(&mut self, child: Html)
        ensures
            final(self)@ == old(self)@.with_child(child@),
    {
        self.0.push_child(child.0);
    }

    /// A `div` element of the given class that holds the given text.
    pub fn div_with_class_and_text(class: &str, text: String) -> (r: Html)
        ensures
            r@ == HtmlView::div(class@).with_child(HtmlView::Raw(escaped(text@))),
    {
        Html::div_with_class(class).with_text(text.as_str())
    }

    /// Adds a `div` element of the given class and text as the last child.
    pub fn push_child_div_with_class_and_text(&mut self, child_class: &str, child_text: String)
        ensures
            final(self)@ == old(self)@.with_child(
                HtmlView::div(child_class@).with_child(HtmlView::Raw(escaped(child_text@))),
            ),
    {
        let child = Html::div_with_class(child_class).with_text(child_text.as_str());
        self.push_child(child);
    }

    /// The tree with one more child at its end.
    pub fn with_child(self, child: Html) -> (r: Html)
        ensures
            r@ == self@.with_child(child@),
    {
        let mut this = self;
        this.push_child(child);
        this
    }

    /// Adds text as the last child; `&`, `<` and `>` are escaped.
    pub fn push_text(&mut self, text: String)
        ensures
            final(self)@ == old(self)@.with_child(HtmlView::Raw(escaped(text@))),
    {
        self.0.push_text(text);
    }

    /// The tree with text as its last child; `&`, `<` and `>` are escaped.
    pub fn with_text(self, text: &str) -> (r: Html)
        ensures
            r@ == self@.with_child(HtmlView::Raw(escaped(text@))),
    {
        let mut this = self;
        this.push_text(String::from_str(text));
        this
    }

    /// The tree with text as its last child; `&`, `<` and `>` are escaped.
    pub fn with_string(self, text: String) -> (r: Html)
        ensures
            r@ == self@.with_child(HtmlView::Raw(escaped(text@))),
    {
        self.with_text(text.as_str())
    }

    /// Adds text as the last child, as it is.
    pub fn push_raw(&mut self, text: &str)
        ensures
            final(self)@ == old(self)@.with_child(HtmlView::Raw(text@)),
    {
        self.0.push_raw(String::from_str(text));
    }

    /// The tree with text as its last child, as it is.
    pub fn with_raw(self, text: &str) -> (r: Html)
        ensures
            r@ == self@.with_child(HtmlView::Raw(text@)),
    {
        let mut this = self;
        this.push_raw(text);
        this
    }

    /// Whether the tree is an element, which can have attributes.
    pub fn is_element(&self) -> (r: bool)
        ensures
            r == (self@ is Element),
    {
        match &self.0 {
            HtmlNode::Element { .. } => true,
            _ => false,
        }
    }

    /// Sets an attribute of an element: the first attribute of that name
    /// gets the value, or the attribute is added.
    pub fn set_attribute(&mut self, k: &str, v: &str)
        requires
            old(self)@ is Element,
        ensures
            final(self)@ == old(self)@.with_attribute(k@, v@, false),
    {
        self.0.set_attribute(String::from_str(k), String::from_str(v), false);
    }

    /// Adds to an attribute of an element: the first attribute of that
    /// name gets a space and the value at its end, or the attribute is
    /// added.
    pub fn push_attribute(&mut self, k: &str, v: &str)
        requires
            old(self)@ is Element,
        ensures
            final(self)@ == old(self)@.with_attribute(k@, v@, true),
    {
        self.0.set_attribute(String::from_str(k), String::from_str(v), true);
    }

    /// The element with an attribute set.
    pub fn with_attribute(self, k: &str, v: &str) -> (r: Html)
        requires
            self@ is Element,
        ensures
            r@ == self@.with_attribute(k@, v@, false),
    {
        let mut this = self;
        this.set_attribute(k, v);
        this
    }

    /// Sets the class of an element that is then dropped.
    pub fn set_class(self, c: &str)
        requires
            self@ is Element,
    {
        let mut this = self;
        this.set_attribute("class", c);
    }

    /// The element with a class added.
    pub fn with_class(self, c: &str) -> (r: Html)
        requires
            self@ is Element,
        ensures
            r@ == self@.with_attribute("class"@, c@, true),
    {
        let mut this = self;
        this.push_attribute("class", c);
        this
    }

    /// The text of the tree on one line per top-level node.
    pub fn render(&self) -> (r: String)
        ensures
            r@ == rendered(self@, false, 0),
    {
        let mut out = String::new();
        let none = String::new();
        self.0.render(&mut out, false, &none, Ghost(0));
        proof {
            assert(Seq::<char>::empty() + rendered(self@, false, 0) =~= rendered(self@, false, 0));
        }
        out
    }

    /// The text of the tree with one node per line, indented.
    pub fn pretty(&self) -> (r: String)
        ensures
            r@ == rendered(self@, true, 0),
    {
        let mut out = String::new();
        let none = String::new();
        proof {
            assert(spaces(0) =~= Seq::<char>::empty());
        }
        self.0.render(&mut out, true, &none, Ghost(0));
        proof {
            assert(Seq::<char>::empty() + rendered(self@, true, 0) =~= rendered(self@, true, 0));
        }
        out
    }
}

} // verus!
