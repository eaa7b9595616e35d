use vstd::prelude::*;
use crate::extras::str_eq;
use crate::token::{SpecToken, Token};

verus! {

/// The mathematical image of an `Alias`.
pub ghost struct SpecAlias {
    pub name: SpecToken,
    pub token: int,
}

/// A named capture point: the capture's name token and the position inside
/// the owning variant's pattern whose match it captures.
#[derive(Debug)]
pub struct Alias {
    pub name: Token,
    pub token: usize,
}

impl View for Alias {
    type V = SpecAlias;

    open spec fn view(&self) -> SpecAlias {
        SpecAlias { name: self.name@, token: self.token as int }
    }
}

impl DeepView for Alias {
    type V = SpecAlias;

    open spec fn deep_view(&self) -> SpecAlias {
        self.view()
    }
}

impl Clone for Alias {
    fn clone(&self) -> (r: Alias)
        ensures
            r@ == self@,
    {
        Alias { name: self.name.clone(), token: self.token }
    }
}

impl Alias {
    pub fn new(name: Token, token: usize) -> (a: Alias)
        ensures
            a@ == (SpecAlias { name: name@, token: token as int }),
    {
        Alias { name, token }
    }
}

/// The mathematical image of a `Segment`.
pub ghost struct SpecSegment {
    pub name: SpecToken,
    pub rule: Seq<char>,
    pub variant: Option<Seq<char>>,
    pub tokens: Seq<SpecToken>,
}

/// A named, reusable token block attached to a rule or to one of its
/// variants; parsed and stored, never consulted while matching.
#[derive(Debug)]
pub struct Segment {
    pub name: Token,
    pub rule: String,
    pub variant: Option<String>,
    pub tokens: Vec<Token>,
}

pub open spec fn view_opt_string(s: Option<String>) -> Option<Seq<char>> {
    match s {
        Option::Some(v) => Option::Some(v@),
        Option::None => Option::None,
    }
}

impl View for Segment {
    type V = SpecSegment;

    open spec fn view(&self) -> SpecSegment {
        SpecSegment {
            name: self.name@,
            rule: self.rule@,
            variant: view_opt_string(self.variant),
            tokens: self.tokens.deep_view(),
        }
    }
}

impl DeepView for Segment {
    type V = SpecSegment;

    open spec fn deep_view(&self) -> SpecSegment {
        self.view()
    }
}

impl Clone for Segment {
    fn clone(&self) -> (r: Segment)
        ensures
            r@ == self@,
    {
        let variant = match &self.variant {
            Option::Some(v) => Option::Some(v.clone()),
            Option::None => Option::None,
        };
        let r = Segment {
            name: self.name.clone(),
            rule: self.rule.clone(),
            variant,
            tokens: clone_tokens(&self.tokens),
        };
        proof {
            assert(r@.tokens =~= self@.tokens);
        }
        r
    }
}

/// A vector of tokens, cloned element by element; the views agree.
pub(crate) fn clone_tokens(ts: &Vec<Token>) -> (r: Vec<Token>)
    ensures
        r.deep_view() == ts.deep_view(),
{
    let n = ts.len();
    let mut r: Vec<Token> = Vec::new();
    let mut i: usize = 0;
    while i < n
        invariant
            n == ts@.len(),
            0 <= i <= n,
            r.deep_view() =~= ts.deep_view().subrange(0, i as int),
        decreases n - i,
    {
        let ghost old_r = r.deep_view();
        r.push(ts[i].clone());
        proof {
            assert(r.deep_view() =~= old_r.push(ts@[i as int]@));
            assert(ts.deep_view().subrange(0, i + 1) =~= ts.deep_view().subrange(0, i as int).push(
                ts.deep_view()[i as int],
            ));
        }
        i = i + 1;
    }
    proof {
        assert(r.deep_view() =~= ts.deep_view());
    }
    r
}

impl Segment {
    pub fn new(name: Token, rule: String, variant: Option<String>, tokens: Vec<Token>) -> (s:
        Segment)
        ensures
            s@ == (SpecSegment {
                name: name@,
                rule: rule@,
                variant: view_opt_string(variant),
                tokens: tokens.deep_view(),
            }),
    {
        Segment { name, rule, variant, tokens }
    }
}

/// The mathematical image of a `Variant`.
pub ghost struct SpecVariant {
    pub name: SpecToken,
    pub rule: Seq<char>,
    pub tokens: Seq<SpecToken>,
    pub segments: Seq<SpecSegment>,
    pub aliases: Seq<SpecAlias>,
}

/// One alternative pattern of a rule: its name token, the owning rule's
/// name, the pattern tokens as written, its nested segments, and the
/// capture points recorded over the pattern.
#[derive(Debug)]
pub struct Variant {
    pub name: Token,
    pub rule: String,
    pub tokens: Vec<Token>,
    pub segments: Vec<Segment>,
    pub aliases: Vec<Alias>,
}

impl View for Variant {
    type V = SpecVariant;

    open spec fn view(&self) -> SpecVariant {
        SpecVariant {
            name: self.name@,
            rule: self.rule@,
            tokens: self.tokens.deep_view(),
            segments: self.segments.deep_view(),
            aliases: self.aliases.deep_view(),
        }
    }
}

impl DeepView for Variant {
    type V = SpecVariant;

    open spec fn deep_view(&self) -> SpecVariant {
        self.view()
    }
}

/// A vector of segments, cloned element by element; the views agree.
pub(crate) fn clone_segments(ss: &Vec<Segment>) -> (r: Vec<Segment>)
    ensures
        r.deep_view() == ss.deep_view(),
{
    let n = ss.len();
    let mut r: Vec<Segment> = Vec::new();
    let mut i: usize = 0;
    while i < n
        invariant
            n == ss@.len(),
            0 <= i <= n,
            r.deep_view() =~= ss.deep_view().subrange(0, i as int),
        decreases n - i,
    {
        let ghost old_r = r.deep_view();
        r.push(ss[i].clone());
        proof {
            assert(r.deep_view() =~= old_r.push(ss@[i as int]@));
            assert(ss.deep_view().subrange(0, i + 1) =~= ss.deep_view().subrange(0, i as int).push(
                ss.deep_view()[i as int],
            ));
        }
        i = i + 1;
    }
    proof {
        assert(r.deep_view() =~= ss.deep_view());
    }
    r
}

/// A vector of aliases, cloned element by element; the views agree.
pub(crate) fn clone_aliases(aa: &Vec<Alias>) -> (r: Vec<Alias>)
    ensures
        r.deep_view() == aa.deep_view(),
{
    let n = aa.len();
    let mut r: Vec<Alias> = Vec::new();
    let mut i: usize = 0;
    while i < n
        invariant
            n == aa@.len(),
            0 <= i <= n,
            r.deep_view() =~= aa.deep_view().subrange(0, i as int),
        decreases n - i,
    {
        let ghost old_r = r.deep_view();
        r.push(aa[i].clone());
        proof {
            assert(r.deep_view() =~= old_r.push(aa@[i as int]@));
            assert(aa.deep_view().subrange(0, i + 1) =~= aa.deep_view().subrange(0, i as int).push(
                aa.deep_view()[i as int],
            ));
        }
        i = i + 1;
    }
    proof {
        assert(r.deep_view() =~= aa.deep_view());
    }
    r
}

impl Clone for Variant {
    fn clone(&self) -> (r: Variant)
        ensures
            r@ == self@,
    {
        Variant {
            name: self.name.clone(),
            rule: self.rule.clone(),
            tokens: clone_tokens(&self.tokens),
            segments: clone_segments(&self.segments),
            aliases: clone_aliases(&self.aliases),
        }
    }
}

/// A vector of variants, cloned element by element; the views agree.
pub(crate) fn clone_variants(vv: &Vec<Variant>) -> (r: Vec<Variant>)
    ensures
        r.deep_view() == vv.deep_view(),
{
    let n = vv.len();
    let mut r: Vec<Variant> = Vec::new();
    let mut i: usize = 0;
    while i < n
        invariant
            n == vv@.len(),
            0 <= i <= n,
            r.deep_view() =~= vv.deep_view().subrange(0, i as int),
        decreases n - i,
    {
        let ghost old_r = r.deep_view();
        r.push(vv[i].clone());
        proof {
            assert(r.deep_view() =~= old_r.push(vv@[i as int]@));
            assert(vv.deep_view().subrange(0, i + 1) =~= vv.deep_view().subrange(0, i as int).push(
                vv.deep_view()[i as int],
            ));
        }
        i = i + 1;
    }
    proof {
        assert(r.deep_view() =~= vv.deep_view());
    }
    r
}

impl Variant {
    pub fn new(
        name: Token,
        rule: String,
        tokens: Vec<Token>,
        segments: Vec<Segment>,
        aliases: Vec<Alias>,
    ) -> (v: Variant)
        ensures
            v@ == (SpecVariant {
                name: name@,
                rule: rule@,
                tokens: tokens.deep_view(),
                segments: segments.deep_view(),
                aliases: aliases.deep_view(),
            }),
    {
        Variant { name, rule, tokens, segments, aliases }
    }

    /// The first of this variant's segments carrying the given name.
    pub fn segment(&self, name: &str) -> (r: Option<&Segment>)
        ensures
            match r {
                Option::Some(s) => {
                    let j = spec_find_segment(self@.segments, name@)->0;
                    &&& spec_find_segment(self@.segments, name@) is Some
                    &&& 0 <= j < self@.segments.len()
                    &&& s@ == self@.segments[j]
                },
                Option::None => spec_find_segment(self@.segments, name@) is None,
            },
    {
        find_segment(&self.segments, name)
    }
}

impl Variant {
    /// The rule this variant belongs to, looked up in the grammar by name.
    pub fn rule<'a>(&self, template: &'a crate::template::Template) -> (r: &'a Rule)
        requires
            template@.rules is Some,
            crate::template::spec_find_rule(template@.rules->0, self@.rule) is Some,
        ensures
            ({
                let rs = template@.rules->0;
                let j = crate::template::spec_find_rule(rs, self@.rule)->0;
                0 <= j < rs.len() && r@ == rs[j]
            }),
    {
        match template.find_rule(self.rule.as_str()) {
            Option::Some(r) => r,
            Option::None => {
                proof {
                    assert(false);
                }
                vstd::pervasive::unreached()
            },
        }
    }
}

impl Segment {
    /// The rule this segment is attached to, looked up in the grammar by
    /// name.
    pub fn rule<'a>(&self, template: &'a crate::template::Template) -> (r: &'a Rule)
        requires
            template@.rules is Some,
            crate::template::spec_find_rule(template@.rules->0, self@.rule) is Some,
        ensures
            ({
                let rs = template@.rules->0;
                let j = crate::template::spec_find_rule(rs, self@.rule)->0;
                0 <= j < rs.len() && r@ == rs[j]
            }),
    {
        match template.find_rule(self.rule.as_str()) {
            Option::Some(r) => r,
            Option::None => {
                proof {
                    assert(false);
                }
                vstd::pervasive::unreached()
            },
        }
    }

    /// The variant this segment is attached to, where it is attached to
    /// one rather than to its rule as a whole.
    pub fn variant<'a>(&self, template: &'a crate::template::Template) -> (r: Option<&'a Variant>)
        requires
            template@.rules is Some,
            crate::template::spec_find_rule(template@.rules->0, self@.rule) is Some,
            self@.variant matches Some(vn) ==> spec_find_variant(
                template@.rules->0[crate::template::spec_find_rule(
                    template@.rules->0,
                    self@.rule,
                )->0].variants,
                vn,
            ) is Some,
        ensures
            r is Some <==> self@.variant is Some,
            r matches Some(v) ==> ({
                let rs = template@.rules->0;
                let j = crate::template::spec_find_rule(rs, self@.rule)->0;
                let vj = spec_find_variant(rs[j].variants, self@.variant->0)->0;
                0 <= vj < rs[j].variants.len() && v@ == rs[j].variants[vj]
            }),
    {
        match &self.variant {
            Option::Some(vn) => {
                let owner = self.rule(template);
                match owner.variant(vn.as_str()) {
                    Option::Some(v) => Option::Some(v),
                    Option::None => {
                        proof {
                            assert(false);
                        }
                        vstd::pervasive::unreached()
                    },
                }
            },
            Option::None => Option::None,
        }
    }
}

/// The mathematical image of a `Rule`.
pub ghost struct SpecRule {
    pub name: SpecToken,
    pub is_matching: bool,
    pub variants: Seq<SpecVariant>,
    pub segments: Seq<SpecSegment>,
}

/// A named grammar production: its ordered alternative patterns, its
/// segments, and whether it may start a top-level statement (declared with
/// a trailing `:`) or serves only by reference (declared with `!`).
#[derive(Debug)]
pub struct Rule {
    pub name: Token,
    pub is_matching: bool,
    pub variants: Vec<Variant>,
    pub segments: Vec<Segment>,
}

impl View for Rule {
    type V = SpecRule;

    open spec fn view(&self) -> SpecRule {
        SpecRule {
            name: self.name@,
            is_matching: self.is_matching,
            variants: self.variants.deep_view(),
            segments: self.segments.deep_view(),
        }
    }
}

impl DeepView for Rule {
    type V = SpecRule;

    open spec fn deep_view(&self) -> SpecRule {
        self.view()
    }
}

/// A token's lexeme where it has one, the empty sequence where not.
pub open spec fn lexeme_of(t: SpecToken) -> Seq<char> {
    match t.lexeme {
        Option::Some(s) => s,
        Option::None => Seq::empty(),
    }
}

/// The first segment of `ss` (from index `k` on) whose name's lexeme is
/// `name`, as an index.
pub open spec fn spec_find_segment_from(ss: Seq<SpecSegment>, name: Seq<char>, k: int) -> Option<
    int,
>
    decreases ss.len() - k,
{
    if k < 0 || k >= ss.len() {
        Option::None
    } else if ss[k].name.lexeme == Option::Some(name) {
        Option::Some(k)
    } else {
        spec_find_segment_from(ss, name, k + 1)
    }
}

pub open spec fn spec_find_segment(ss: Seq<SpecSegment>, name: Seq<char>) -> Option<int> {
    spec_find_segment_from(ss, name, 0)
}

/// The first variant of `vs` (from index `k` on) whose name's lexeme is
/// `name`, as an index.
pub open spec fn spec_find_variant_from(vs: Seq<SpecVariant>, name: Seq<char>, k: int) -> Option<
    int,
>
    decreases vs.len() - k,
{
    if k < 0 || k >= vs.len() {
        Option::None
    } else if vs[k].name.lexeme == Option::Some(name) {
        Option::Some(k)
    } else {
        spec_find_variant_from(vs, name, k + 1)
    }
}

pub open spec fn spec_find_variant(vs: Seq<SpecVariant>, name: Seq<char>) -> Option<int> {
    spec_find_variant_from(vs, name, 0)
}

/// A token's lexeme as a borrowed string, the empty string where it has
/// none.
pub(crate) fn lexeme_str(t: &Token) -> (r: &str)
    ensures
        r@ == lexeme_of(t@),
{
    match &t.lexeme {
        Option::Some(s) => s.as_str(),
        Option::None => {
            let e = "";
            proof {
                reveal_strlit("");
                assert(e@ =~= Seq::<char>::empty());
            }
            e
        },
    }
}

/// Whether a token carries the given lexeme.
fn token_has_lexeme(t: &Token, name: &str) -> (r: bool)
    ensures
        r == (t@.lexeme == Option::Some(name@)),
{
    match &t.lexeme {
        Option::Some(s) => str_eq(s.as_str(), name),
        Option::None => false,
    }
}

fn find_segment<'a>(ss: &'a Vec<Segment>, name: &str) -> (r: Option<&'a Segment>)
    ensures
        match r {
            Option::Some(s) => {
                let j = spec_find_segment(ss.deep_view(), name@)->0;
                &&& spec_find_segment(ss.deep_view(), name@) is Some
                &&& 0 <= j < ss.deep_view().len()
                &&& s@ == ss.deep_view()[j]
            },
            Option::None => spec_find_segment(ss.deep_view(), name@) is None,
        },
{
    let n = ss.len();
    let mut k: usize = 0;
    while k < n
        invariant
            n == ss@.len(),
            0 <= k <= n,
            spec_find_segment(ss.deep_view(), name@) == spec_find_segment_from(
                ss.deep_view(),
                name@,
                k as int,
            ),
        decreases n - k,
    {
        proof {
            assert(ss.deep_view()[k as int] == ss@[k as int]@);
        }
        if token_has_lexeme(&ss[k].name, name) {
            return Option::Some(&ss[k]);
        }
        k = k + 1;
    }
    Option::None
}

impl Clone for Rule {
    fn clone(&self) -> (r: Rule)
        ensures
            r@ == self@,
    {
        Rule {
            name: self.name.clone(),
            is_matching: self.is_matching,
            variants: clone_variants(&self.variants),
            segments: clone_segments(&self.segments),
        }
    }
}

impl Rule {
    pub fn new(
        name: Token,
        is_matching: bool,
        variants: Vec<Variant>,
        segments: Vec<Segment>,
    ) -> (r: Rule)
        ensures
            r@ == (SpecRule {
                name: name@,
                is_matching,
                variants: variants.deep_view(),
                segments: segments.deep_view(),
            }),
    {
        Rule { name, is_matching, variants, segments }
    }

    /// The first of this rule's variants carrying the given name.
    pub fn variant(&self, name: &str) -> (r: Option<&Variant>)
        ensures
            match r {
                Option::Some(v) => {
                    let j = spec_find_variant(self@.variants, name@)->0;
                    &&& spec_find_variant(self@.variants, name@) is Some
                    &&& 0 <= j < self@.variants.len()
                    &&& v@ == self@.variants[j]
                },
                Option::None => spec_find_variant(self@.variants, name@) is None,
            },
    {
        let n = self.variants.len();
        let mut k: usize = 0;
        while k < n
            invariant
                n == self.variants@.len(),
                0 <= k <= n,
                spec_find_variant(self@.variants, name@) == spec_find_variant_from(
                    self@.variants,
                    name@,
                    k as int,
                ),
            decreases n - k,
        {
            proof {
                assert(self@.variants[k as int] == self.variants@[k as int]@);
            }
            if token_has_lexeme(&self.variants[k].name, name) {
                return Option::Some(&self.variants[k]);
            }
            k = k + 1;
        }
        Option::None
    }

    /// The first of this rule's segments carrying the given name.
    pub fn segment(&self, name: &str) -> (r: Option<&Segment>)
        ensures
            match r {
                Option::Some(s) => {
                    let j = spec_find_segment(self@.segments, name@)->0;
                    &&& spec_find_segment(self@.segments, name@) is Some
                    &&& 0 <= j < self@.segments.len()
                    &&& s@ == self@.segments[j]
                },
                Option::None => spec_find_segment(self@.segments, name@) is None,
            },
    {
        find_segment(&self.segments, name)
    }
}

} // verus!
