//! The AST produced by the parsing engine: a tagged union over leaf nodes
//! carrying text spans and container nodes owning their children in document
//! order, together with its ghost model and the text-reconstruction function
//! that states the losslessness invariant.

use vstd::prelude::*;

verus! {

broadcast use vstd::std_specs::vec::group_vec_axioms, vstd::seq::group_seq_axioms;

/// Ghost model of an AST node: the same tree shape as `Markdown`, with every
/// text span abstracted to its sequence of characters.
pub enum NodeModel {
    Config(Option<Seq<char>>),
    Text(Seq<char>),
    Head { level: nat, title: Seq<char>, id: Seq<char> },
    BoldItalic(Seq<NodeModel>),
    Bold(Seq<NodeModel>),
    Italic(Seq<NodeModel>),
    Strike(Seq<NodeModel>),
    Highlight(Seq<NodeModel>),
    BlockQuote(Seq<NodeModel>),
    OrderedList(Seq<NodeModel>),
    UnorderedList(Seq<NodeModel>),
    TaskList { content: Seq<NodeModel>, finish: bool },
    NewLine,
    HorizontalRule,
    RawLink(Seq<char>),
    Link { title: Seq<char>, url: Seq<char> },
    Image { alt: Seq<char>, url: Seq<char> },
    Code(Seq<char>),
    CodeBlock { lang: Seq<char>, code: Seq<char> },
    Math(Seq<char>),
    Table(Seq<char>),
    HTML(Seq<char>),
    Command(Seq<char>),
}

/// A parsed Markdown AST node. Leaves carry the captured text spans;
/// containers own their children in document order. The list, table, HTML,
/// code-block and config variants are slots for external collaborating
/// parsers: the inline engine here never produces them itself.
#[derive(Debug, PartialEq, Eq)]
pub enum Markdown {
    Config(Option<String>),
    Text(String),
    Head { level: usize, title: String, id: String },
    BoldItalic(Vec<Markdown>),
    Bold(Vec<Markdown>),
    Italic(Vec<Markdown>),
    Strike(Vec<Markdown>),
    Highlight(Vec<Markdown>),
    BlockQuote(Vec<Markdown>),
    OrderedList(Vec<Markdown>),
    UnorderedList(Vec<Markdown>),
    TaskList { content: Vec<Markdown>, finish: bool },
    NewLine,
    HorizontalRule,
    RawLink(String),
    Link { title: String, url: String },
    Image { alt: String, url: String },
    Code(String),
    CodeBlock { lang: String, code: String },
    Math(String),
    Table(String),
    HTML(String),
    Command(String),
}

pub open spec fn md_view(m: Markdown) -> NodeModel
    decreases m,
{
    match m {
        Markdown::Config(o) => NodeModel::Config(
            match o {
                Some(s) => Some(s@),
                None => None,
            },
        ),
        Markdown::Text(s) => NodeModel::Text(s@),
        Markdown::Head { level, title, id } => NodeModel::Head {
            level: level as nat,
            title: title@,
            id: id@,
        },
        Markdown::BoldItalic(ch) => NodeModel::BoldItalic(md_views(ch@)),
        Markdown::Bold(ch) => NodeModel::Bold(md_views(ch@)),
        Markdown::Italic(ch) => NodeModel::Italic(md_views(ch@)),
        Markdown::Strike(ch) => NodeModel::Strike(md_views(ch@)),
        Markdown::Highlight(ch) => NodeModel::Highlight(md_views(ch@)),
        Markdown::BlockQuote(ch) => NodeModel::BlockQuote(md_views(ch@)),
        Markdown::OrderedList(ch) => NodeModel::OrderedList(md_views(ch@)),
        Markdown::UnorderedList(ch) => NodeModel::UnorderedList(md_views(ch@)),
        Markdown::TaskList { content, finish } => NodeModel::TaskList {
            content: md_views(content@),
            finish,
        },
        Markdown::NewLine => NodeModel::NewLine,
        Markdown::HorizontalRule => NodeModel::HorizontalRule,
        Markdown::RawLink(s) => NodeModel::RawLink(s@),
        Markdown::Link { title, url } => NodeModel::Link { title: title@, url: url@ },
        Markdown::Image { alt, url } => NodeModel::Image { alt: alt@, url: url@ },
        Markdown::Code(s) => NodeModel::Code(s@),
        Markdown::CodeBlock { lang, code } => NodeModel::CodeBlock { lang: lang@, code: code@ },
        Markdown::Math(s) => NodeModel::Math(s@),
        Markdown::Table(s) => NodeModel::Table(s@),
        Markdown::HTML(s) => NodeModel::HTML(s@),
        Markdown::Command(s) => NodeModel::Command(s@),
    }
}

pub open spec fn md_views(s: Seq<Markdown>) -> Seq<NodeModel>
    decreases s,
{
    if s.len() == 0 {
        Seq::empty()
    } else {
        seq![md_view(s[0])] + md_views(s.drop_first())
    }
}

pub proof fn lemma_md_views_concat(a: Seq<Markdown>, b: Seq<Markdown>)
    ensures
        md_views(a + b) == md_views(a) + md_views(b),
    decreases a,
{
    if a.len() == 0 {
        assert(a + b =~= b);
        assert(md_views(a) + md_views(b) =~= md_views(b));
    } else {
        lemma_md_views_concat(a.drop_first(), b);
        assert((a + b).drop_first() =~= a.drop_first() + b);
        assert(md_views(a + b) =~= md_views(a) + md_views(b));
    }
}

pub proof fn lemma_md_views_push(a: Seq<Markdown>, m: Markdown)
    ensures
        md_views(a.push(m)) == md_views(a).push(md_view(m)),
{
    lemma_md_views_concat(a, seq![m]);
    assert(a.push(m) =~= a + seq![m]);
    assert(seq![m].drop_first() =~= Seq::<Markdown>::empty());
    assert(md_views(Seq::<Markdown>::empty()) =~= Seq::<NodeModel>::empty());
    assert(seq![m][0] == m);
    assert(md_views(seq![m]) =~= seq![md_view(m)]);
    assert(md_views(a).push(md_view(m)) =~= md_views(a) + seq![md_view(m)]);
}

/// The text covered by one node of the inline engine: its captured spans plus
/// the delimiter and marker characters consumed around them. Concatenated over
/// a parse result this reproduces the parsed input (the losslessness
/// invariant) wherever the nodes carry their consumed markers. A heading does
/// not: the whitespace after its marker run and its id fence are not stored.
/// The list, table, HTML and config stubs belong to external collaborating
/// parsers and contribute nothing here.
pub open spec fn node_text(n: NodeModel) -> Seq<char>
    decreases n,
{
    match n {
        NodeModel::Text(s) => s,
        NodeModel::Code(s) => seq!['`'] + s + seq!['`'],
        NodeModel::Math(s) => seq!['$'] + s + seq!['$'],
        NodeModel::BoldItalic(ch) => seq!['*', '*', '*'] + nodes_text(ch) + seq!['*', '*', '*'],
        NodeModel::Bold(ch) => seq!['*', '*'] + nodes_text(ch) + seq!['*', '*'],
        NodeModel::Italic(ch) => seq!['*'] + nodes_text(ch) + seq!['*'],
        NodeModel::Strike(ch) => seq!['~', '~'] + nodes_text(ch) + seq!['~', '~'],
        NodeModel::Highlight(ch) => seq!['='] + seq!['='] + nodes_text(ch) + seq!['='] + seq!['='],
        NodeModel::RawLink(s) => s,
        NodeModel::Link { title, url } => seq!['['] + title + seq![']', '('] + url + seq![')'],
        NodeModel::Image { alt, url } => seq!['!', '['] + alt + seq![']', '('] + url + seq![')'],
        NodeModel::NewLine => seq!['\n'],
        NodeModel::HorizontalRule => seq!['-', '-', '-'],
        NodeModel::Command(s) => seq!['{', '{'] + s + seq!['}', '}'],
        NodeModel::CodeBlock { lang, code } => seq!['`', '`', '`'] + lang + code + seq![
            '`',
            '`',
            '`',
        ],
        _ => Seq::empty(),
    }
}

pub open spec fn nodes_text(ns: Seq<NodeModel>) -> Seq<char>
    decreases ns,
{
    if ns.len() == 0 {
        Seq::empty()
    } else {
        node_text(ns[0]) + nodes_text(ns.drop_first())
    }
}

pub proof fn lemma_nodes_text_concat(a: Seq<NodeModel>, b: Seq<NodeModel>)
    ensures
        nodes_text(a + b) == nodes_text(a) + nodes_text(b),
    decreases a,
{
    if a.len() == 0 {
        assert(a + b =~= b);
        assert(nodes_text(a) + nodes_text(b) =~= nodes_text(b));
    } else {
        lemma_nodes_text_concat(a.drop_first(), b);
        assert((a + b).drop_first() =~= a.drop_first() + b);
        assert(nodes_text(a + b) =~= nodes_text(a) + nodes_text(b));
    }
}

/// The ghost reading of a parser result: the remainder's characters and the
/// models of the produced nodes.
pub open spec fn opt_nodes_view(r: Option<(&str, Vec<Markdown>)>) -> Option<
    (Seq<char>, Seq<NodeModel>),
> {
    match r {
        Some((rem, ns)) => Some((rem@, md_views(ns@))),
        None => None,
    }
}

/// Move every node of `src` onto the end of `dst`, keeping document order.
pub fn append_nodes(dst: &mut Vec<Markdown>, src: Vec<Markdown>)
    ensures
        md_views(final(dst)@) == md_views(old(dst)@) + md_views(src@),
{
    let mut src = src;
    let ghost all: Seq<Markdown> = src@;
    proof {
        assert(md_views((*dst)@) + md_views(src@) =~= md_views(old(dst)@) + md_views(all));
    }
    while src.len() > 0
        invariant
            md_views((*dst)@) + md_views(src@) == md_views(old(dst)@) + md_views(all),
        decreases src.len(),
    {
        let ghost before_dst: Seq<Markdown> = (*dst)@;
        let ghost before_src: Seq<Markdown> = src@;
        let m = src.remove(0);
        proof {
            assert(src@ =~= before_src.drop_first());
            assert(md_views(before_src) =~= seq![md_view(m)] + md_views(src@));
            lemma_md_views_push(before_dst, m);
            assert(before_dst.push(m) =~= before_dst + seq![m]);
        }
        dst.push(m);
        proof {
            assert(md_views((*dst)@) + md_views(src@) =~= md_views(before_dst) + (seq![
                md_view(m),
            ] + md_views(src@)));
        }
    }
    proof {
        assert(md_views(src@) =~= Seq::<NodeModel>::empty());
        assert(md_views((*dst)@) =~= md_views(old(dst)@) + md_views(all));
    }
}

pub proof fn lemma_nodes_text_single(n: NodeModel)
    ensures
        nodes_text(seq![n]) == node_text(n),
{
    assert(seq![n].drop_first() =~= Seq::<NodeModel>::empty());
    assert(nodes_text(Seq::<NodeModel>::empty()) =~= Seq::<char>::empty());
    assert(seq![n][0] == n);
    assert(nodes_text(seq![n]) =~= node_text(n));
}

} // verus!
