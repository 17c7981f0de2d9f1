//! What the elements do: how their fields resolve through the style chain,
//! what synthesis and the built-in show rules make of them, and how they
//! are hashed.

use vstd::prelude::*;
use vstd::string::*;
use vstd::utf8::*;

use crate::content::{
    dup_all, lemma_children_model, models, Content, ContentV, Fields, Kind, Parity,
};
use crate::style::{chain_get, Field, Property, Style, StyleChain, StyleV, Styles, Value};

verus! {

/// The spacing around a block that sets none, in thousandths of an em.
pub const DEFAULT_BLOCK_SPACING: i64 = 1200;

/// The spacing between the lines of a paragraph that sets none.
pub const DEFAULT_LEADING: i64 = 650;

/// The spacing that a heading of the first level sets above itself.
pub const HEADING_ABOVE_FIRST: i64 = 1800;

/// The spacing that a heading of another level sets above itself.
pub const HEADING_ABOVE: i64 = 1440;

/// The level of a heading that sets none.
pub const DEFAULT_LEVEL: usize = 1;

/// The spacing that a heading sets below itself.
pub const HEADING_BELOW: i64 = 750;

/// How weak the spacing is that attaches a tight list to what precedes it.
pub const LIST_ATTACH_WEAKNESS: usize = 2;

/// How weak the spacing around a block is that was set.
pub const BLOCK_AROUND_WEAKNESS: usize = 3;

/// How weak the spacing around a block is that was not set.
pub const BLOCK_SPACING_WEAKNESS: usize = 4;

/// A vertical spacing of the amount and weakness.
pub open spec fn spacing(amount: i64, weakness: usize) -> ContentV {
    ContentV {
        fields: Fields { amount, weakness, ..Fields::unset_spec() },
        ..ContentV::new(Kind::V)
    }
}

/// The spacing on one side of a block: what the block itself or the style
/// chain sets for the field, else the default.
pub open spec fn block_spacing(
    own: Option<i64>,
    links: Seq<Seq<StyleV>>,
    field: Field,
) -> ContentV {
    match own {
        Some(amount) => spacing(amount, BLOCK_AROUND_WEAKNESS),
        None => match chain_get(links, Kind::Block, field) {
            Some(Value::Length(amount)) => spacing(amount, BLOCK_AROUND_WEAKNESS),
            _ => spacing(DEFAULT_BLOCK_SPACING, BLOCK_SPACING_WEAKNESS),
        },
    }
}

/// The spacing between the lines of a paragraph under the chain.
pub open spec fn leading_in(links: Seq<Seq<StyleV>>) -> i64 {
    match chain_get(links, Kind::Par, Field::Leading) {
        Some(Value::Length(amount)) => amount,
        _ => DEFAULT_LEADING,
    }
}

impl ContentV {
    /// Whether the element is weak: by its own field, else by the chain,
    /// else not.
    pub open spec fn weak(self, links: Seq<Seq<StyleV>>) -> bool {
        match self.fields.weak {
            Some(b) => b,
            None => match chain_get(links, self.kind, Field::Weak) {
                Some(Value::Bool(b)) => b,
                _ => false,
            },
        }
    }

    /// The parity that a pagebreak skips to.
    pub open spec fn to(self, links: Seq<Seq<StyleV>>) -> Option<Parity> {
        match self.fields.parity {
            Some(p) => Some(p),
            None => match chain_get(links, self.kind, Field::To) {
                Some(Value::Parity(p)) => p,
                _ => None,
            },
        }
    }

    /// Whether the items of a list stand close together. They do unless the
    /// list or the chain says otherwise.
    pub open spec fn tight(self, links: Seq<Seq<StyleV>>) -> bool {
        match self.fields.tight {
            Some(b) => b,
            None => match chain_get(links, self.kind, Field::Tight) {
                Some(Value::Bool(b)) => b,
                _ => true,
            },
        }
    }

    /// Whether an equation is set as a block.
    pub open spec fn block(self, links: Seq<Seq<StyleV>>) -> bool {
        match self.fields.block {
            Some(b) => b,
            None => match chain_get(links, self.kind, Field::Block) {
                Some(Value::Bool(b)) => b,
                _ => false,
            },
        }
    }

    /// The spacing above the element in a flow.
    pub open spec fn above(self, links: Seq<Seq<StyleV>>) -> ContentV {
        block_spacing(
            if self.kind == Kind::Block {
                self.fields.above
            } else {
                None
            },
            links,
            Field::Above,
        )
    }

    /// The spacing below the element in a flow.
    pub open spec fn below(self, links: Seq<Seq<StyleV>>) -> ContentV {
        block_spacing(
            if self.kind == Kind::Block {
                self.fields.below
            } else {
                None
            },
            links,
            Field::Below,
        )
    }

    /// Whether the element is a tight list, enumeration or term list.
    pub open spec fn is_tight_list(self, links: Seq<Seq<StyleV>>) -> bool {
        (self.kind == Kind::List || self.kind == Kind::Enum || self.kind == Kind::Terms)
            && self.tight(links)
    }

    /// The level of a heading: by its own field, else by the chain, else
    /// the first.
    pub open spec fn level(self, links: Seq<Seq<StyleV>>) -> usize {
        match self.fields.level {
            Some(n) => n,
            None => match chain_get(links, self.kind, Field::Level) {
                Some(Value::Level(n)) => n,
                _ => DEFAULT_LEVEL,
            },
        }
    }

    /// The element with its computed fields filled in from the chain: an
    /// equation learns whether it is a block, a heading its level.
    pub open spec fn synthesized(self, links: Seq<Seq<StyleV>>) -> ContentV {
        if self.kind == Kind::Equation {
            ContentV { fields: Fields { block: Some(self.block(links)), ..self.fields }, ..self }
        } else if self.kind == Kind::Heading {
            ContentV { fields: Fields { level: Some(self.level(links)), ..self.fields }, ..self }
        } else {
            self
        }
    }

    /// The spacing that a heading of the level sets above itself.
    pub open spec fn heading_above(level: usize) -> i64 {
        if level == 1 {
            HEADING_ABOVE_FIRST
        } else {
            HEADING_ABOVE
        }
    }

    /// The styles that the element sets for itself under the chain: a
    /// heading sets the spacing of the block it is shown as, by its level.
    pub open spec fn show_set(self, links: Seq<Seq<StyleV>>) -> Seq<StyleV> {
        if self.kind == Kind::Heading {
            seq![
                StyleV::Property(
                    Property {
                        kind: Kind::Block,
                        field: Field::Above,
                        value: Value::Length(ContentV::heading_above(self.level(links))),
                        span: None,
                    },
                ),
                StyleV::Property(
                    Property {
                        kind: Kind::Block,
                        field: Field::Below,
                        value: Value::Length(HEADING_BELOW),
                        span: None,
                    },
                ),
            ]
        } else {
            Seq::empty()
        }
    }

    /// What the built-in show rule makes of the element: of a heading a
    /// block with the heading's children, of a citation group the keys of
    /// its citations as text. The result has the element's span.
    pub open spec fn show(self) -> ContentV {
        if self.kind == Kind::CiteGroup {
            ContentV::sequence(cited_keys(self.children)).spanned(self.span)
        } else {
            ContentV::container(Kind::Block, self.children).spanned(self.span)
        }
    }

    /// The 128-bit hash of the element: of its kind, span, label and text,
    /// and of its children in order.
    pub open spec fn fingerprint(self) -> u128
        decreases self,
    {
        let h0 = mix(mix(HASH_SEED, self.kind.code_spec() as u128), self.span.0 as u128);
        let h1 = match self.label {
            Some(label) => mix(mix(h0, 1), label.0 as u128),
            None => mix(h0, 0),
        };
        let h2 = fingerprint_bytes(h1, encode_utf8(self.text));
        fingerprint_all(h2, self.children)
    }
}

/// The key of each citation as a text element with the citation's span.
pub open spec fn cited_keys(cites: Seq<ContentV>) -> Seq<ContentV> {
    Seq::new(
        cites.len(),
        |i: int| ContentV { span: cites[i].span, ..ContentV::text(cites[i].text) },
    )
}

/// Where hashing starts.
pub const HASH_SEED: u128 = 0x6c62272e07bb014262b821756295c58d;

/// The multiplier of the hash.
pub const HASH_PRIME: u128 = 0x0000000001000000000000000000013b;

/// The hash `h` after taking in `x`.
pub open spec fn mix(h: u128, x: u128) -> u128 {
    (h ^ x).wrapping_mul(HASH_PRIME)
}

/// The hash `h` after taking in the bytes in order.
pub open spec fn fingerprint_bytes(h: u128, bytes: Seq<u8>) -> u128
    decreases bytes.len(),
{
    if bytes.len() == 0 {
        h
    } else {
        mix(fingerprint_bytes(h, bytes.drop_last()), bytes.last() as u128)
    }
}

/// The hash `h` after taking in the hashes of the nodes in order.
pub open spec fn fingerprint_all(h: u128, items: Seq<ContentV>) -> u128
    decreases items,
{
    if items.len() == 0 {
        h
    } else {
        mix(fingerprint_all(h, items.drop_last()), items.last().fingerprint())
    }
}

fn mix_exec(h: u128, x: u128) -> (r: u128)
    ensures
        r == mix(h, x),
{
    (h ^ x).wrapping_mul(HASH_PRIME)
}

fn hash_all(h: u128, items: &Vec<Content>) -> (r: u128)
    ensures
        r == fingerprint_all(h, models(items@)),
    decreases items,
{
    let mut acc = h;
    let mut i: usize = 0;
    while i < items.len()
        invariant
            i <= items.len(),
            acc == fingerprint_all(h, models(items@).take(i as int)),
        decreases items.len() - i,
    {
        let f = items[i].fingerprint();
        proof {
            let all = models(items@);
            assert(all.take(i + 1).drop_last() =~= all.take(i as int));
            assert(all.take(i + 1).last() == items@[i as int]@);
        }
        acc = mix_exec(acc, f);
        i += 1;
    }
    proof {
        assert(models(items@).take(items.len() as int) =~= models(items@));
    }
    acc
}

impl Kind {
    pub open spec fn code_spec(self) -> u8 {
        match self {
            Kind::Text => 1,
            Kind::Space => 2,
            Kind::Linebreak => 3,
            Kind::SmartQuote => 4,
            Kind::H => 5,
            Kind::V => 6,
            Kind::Parbreak => 7,
            Kind::Colbreak => 8,
            Kind::Pagebreak => 9,
            Kind::Meta => 10,
            Kind::Place => 11,
            Kind::Boxed => 12,
            Kind::Block => 13,
            Kind::Align => 14,
            Kind::Par => 15,
            Kind::Flow => 16,
            Kind::Page => 17,
            Kind::Document => 18,
            Kind::Heading => 19,
            Kind::List => 20,
            Kind::Enum => 21,
            Kind::Terms => 22,
            Kind::ListItem => 23,
            Kind::EnumItem => 24,
            Kind::TermItem => 25,
            Kind::Equation => 26,
            Kind::Math => 27,
            Kind::Cite => 28,
            Kind::CiteGroup => 29,
            Kind::Sequence => 30,
            Kind::Styled => 31,
        }
    }

    /// The number that stands for the kind in a hash.
    #[verifier::when_used_as_spec(code_spec)]
    pub fn code(self) -> (r: u8)
        ensures
            r == self.code_spec(),
    {
        match self {
            Kind::Text => 1,
            Kind::Space => 2,
            Kind::Linebreak => 3,
            Kind::SmartQuote => 4,
            Kind::H => 5,
            Kind::V => 6,
            Kind::Parbreak => 7,
            Kind::Colbreak => 8,
            Kind::Pagebreak => 9,
            Kind::Meta => 10,
            Kind::Place => 11,
            Kind::Boxed => 12,
            Kind::Block => 13,
            Kind::Align => 14,
            Kind::Par => 15,
            Kind::Flow => 16,
            Kind::Page => 17,
            Kind::Document => 18,
            Kind::Heading => 19,
            Kind::List => 20,
            Kind::Enum => 21,
            Kind::Terms => 22,
            Kind::ListItem => 23,
            Kind::EnumItem => 24,
            Kind::TermItem => 25,
            Kind::Equation => 26,
            Kind::Math => 27,
            Kind::Cite => 28,
            Kind::CiteGroup => 29,
            Kind::Sequence => 30,
            Kind::Styled => 31,
        }
    }
}

/// A vertical spacing of the amount and weakness.
pub fn make_spacing(amount: i64, weakness: usize) -> (r: Content)
    ensures
        r@ == spacing(amount, weakness),
{
    let mut fields = Fields::unset();
    fields.amount = amount;
    fields.weakness = weakness;
    Content::new(Kind::V).with_fields(fields)
}

fn make_block_spacing(own: Option<i64>, styles: &StyleChain, field: Field) -> (r: Content)
    ensures
        r@ == block_spacing(own, styles@, field),
{
    match own {
        Some(amount) => make_spacing(amount, BLOCK_AROUND_WEAKNESS),
        None => match styles.get(Kind::Block, field) {
            Some(Value::Length(amount)) => make_spacing(amount, BLOCK_AROUND_WEAKNESS),
            _ => make_spacing(DEFAULT_BLOCK_SPACING, BLOCK_SPACING_WEAKNESS),
        },
    }
}

/// The spacing between the lines of a paragraph under the chain.
pub fn leading(styles: &StyleChain) -> (r: i64)
    ensures
        r == leading_in(styles@),
{
    match styles.get(Kind::Par, Field::Leading) {
        Some(Value::Length(amount)) => amount,
        _ => DEFAULT_LEADING,
    }
}

impl Content {
    /// Whether the element is weak: by its own field, else by the chain,
    /// else not.
    pub fn weak(&self, styles: &StyleChain) -> (r: bool)
        ensures
            r == self@.weak(styles@),
    {
        match self.fields.weak {
            Some(b) => b,
            None => match styles.get(self.kind, Field::Weak) {
                Some(Value::Bool(b)) => b,
                _ => false,
            },
        }
    }

    /// The parity that a pagebreak skips to.
    pub fn to(&self, styles: &StyleChain) -> (r: Option<Parity>)
        ensures
            r == self@.to(styles@),
    {
        match self.fields.parity {
            Some(p) => Some(p),
            None => match styles.get(self.kind, Field::To) {
                Some(Value::Parity(p)) => p,
                _ => None,
            },
        }
    }

    /// Whether the items of a list stand close together.
    pub fn tight(&self, styles: &StyleChain) -> (r: bool)
        ensures
            r == self@.tight(styles@),
    {
        match self.fields.tight {
            Some(b) => b,
            None => match styles.get(self.kind, Field::Tight) {
                Some(Value::Bool(b)) => b,
                _ => true,
            },
        }
    }

    /// Whether an equation is set as a block.
    pub fn block(&self, styles: &StyleChain) -> (r: bool)
        ensures
            r == self@.block(styles@),
    {
        match self.fields.block {
            Some(b) => b,
            None => match styles.get(self.kind, Field::Block) {
                Some(Value::Bool(b)) => b,
                _ => false,
            },
        }
    }

    /// The spacing above the element in a flow.
    pub fn above(&self, styles: &StyleChain) -> (r: Content)
        ensures
            r@ == self@.above(styles@),
    {
        let own = if self.kind == Kind::Block {
            self.fields.above
        } else {
            None
        };
        make_block_spacing(own, styles, Field::Above)
    }

    /// The spacing below the element in a flow.
    pub fn below(&self, styles: &StyleChain) -> (r: Content)
        ensures
            r@ == self@.below(styles@),
    {
        let own = if self.kind == Kind::Block {
            self.fields.below
        } else {
            None
        };
        make_block_spacing(own, styles, Field::Below)
    }

    /// Whether the element is a tight list, enumeration or term list.
    pub fn is_tight_list(&self, styles: &StyleChain) -> (r: bool)
        ensures
            r == self@.is_tight_list(styles@),
    {
        (self.kind == Kind::List || self.kind == Kind::Enum || self.kind == Kind::Terms)
            && self.tight(styles)
    }

    /// The level of a heading: by its own field, else by the chain, else
    /// the first.
    pub fn level(&self, styles: &StyleChain) -> (r: usize)
        ensures
            r == self@.level(styles@),
    {
        match self.fields.level {
            Some(n) => n,
            None => match styles.get(self.kind, Field::Level) {
                Some(Value::Level(n)) => n,
                _ => DEFAULT_LEVEL,
            },
        }
    }

    /// The element with its computed fields filled in from the chain.
    pub fn synthesized(self, styles: &StyleChain) -> (r: Content)
        ensures
            r@ == self@.synthesized(styles@),
    {
        if self.kind == Kind::Equation {
            let mut fields = self.fields;
            fields.block = Some(self.block(styles));
            self.with_fields(fields)
        } else if self.kind == Kind::Heading {
            let mut fields = self.fields;
            fields.level = Some(self.level(styles));
            self.with_fields(fields)
        } else {
            self
        }
    }

    /// The styles that the element sets for itself under the chain.
    pub fn show_set(&self, styles: &StyleChain) -> (r: Styles)
        ensures
            r@ == self@.show_set(styles@),
    {
        let mut map = Styles::new();
        if self.kind == Kind::Heading {
            let above = if self.level(styles) == 1 {
                HEADING_ABOVE_FIRST
            } else {
                HEADING_ABOVE
            };
            map.set(
                Style::Property(
                    Property {
                        kind: Kind::Block,
                        field: Field::Above,
                        value: Value::Length(above),
                        span: None,
                    },
                ),
            );
            map.set(
                Style::Property(
                    Property {
                        kind: Kind::Block,
                        field: Field::Below,
                        value: Value::Length(HEADING_BELOW),
                        span: None,
                    },
                ),
            );
            proof {
                assert(map@ =~= self@.show_set(styles@));
            }
        }
        map
    }

    /// What the built-in show rule makes of the element.
    pub fn show(&self) -> (r: Content)
        ensures
            r@ == self@.show(),
    {
        proof {
            lemma_children_model(self);
        }
        if self.kind == Kind::CiteGroup {
            let mut keys: Vec<Content> = Vec::new();
            let mut i: usize = 0;
            while i < self.children.len()
                invariant
                    i <= self.children.len(),
                    self@.children.len() == self.children.len(),
                    forall|j: int|
                        0 <= j < self.children.len() ==> #[trigger] self@.children[j]
                            == self.children[j]@,
                    models(keys@) == cited_keys(self@.children).take(i as int),
                decreases self.children.len() - i,
            {
                let cite = &self.children[i];
                let key = Content::text(cite.text.as_str()).with_span(cite.span);
                let ghost before = models(keys@);
                keys.push(key);
                proof {
                    assert(models(keys@) =~= before.push(key@));
                    assert(cited_keys(self@.children).take(i + 1) =~= cited_keys(
                        self@.children,
                    ).take(i as int).push(key@));
                }
                i += 1;
            }
            proof {
                assert(cited_keys(self@.children).take(self.children.len() as int) =~= cited_keys(
                    self@.children,
                ));
            }
            Content::sequence(keys).spanned(self.span)
        } else {
            let children = dup_all(&self.children);
            Content::container(Kind::Block, children).spanned(self.span)
        }
    }

    /// The 128-bit hash of the element.
    pub fn fingerprint(&self) -> (r: u128)
        ensures
            r == self@.fingerprint(),
        decreases self,
    {
        proof {
            lemma_children_model(self);
        }
        let h0 = mix_exec(mix_exec(HASH_SEED, self.kind.code() as u128), self.span.0 as u128);
        let h1 = match self.label {
            Some(label) => mix_exec(mix_exec(h0, 1), label.0 as u128),
            None => mix_exec(h0, 0),
        };
        let bytes = self.text.as_str().as_bytes();
        let mut h2 = h1;
        let mut i: usize = 0;
        while i < bytes.len()
            invariant
                i <= bytes.len(),
                h2 == fingerprint_bytes(h1, bytes@.take(i as int)),
            decreases bytes.len() - i,
        {
            proof {
                assert(bytes@.take(i + 1).drop_last() =~= bytes@.take(i as int));
            }
            h2 = mix_exec(h2, bytes[i] as u128);
            i += 1;
        }
        proof {
            assert(bytes@.take(bytes.len() as int) =~= bytes@);
        }
        hash_all(h2, &self.children)
    }
}

} // verus!
