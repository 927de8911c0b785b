//! Free Compose: the chip groups offered once a module is complete (every
//! chip of its challenges and of earlier modules, merged by group), and the
//! structural check of what the user composed.
use vstd::prelude::*;
use crate::component_logic::picker::ChipGroupDisplay;
use crate::models::{Challenge, ChipGroup, FragmentType, LanguagePack, ModuleInfo, TokenCategory};
use crate::text::{join, join_strings, owned, str_eq, contains_string, views};
use crate::validator::AdapterRegistry;

verus! {

broadcast use vstd::string::group_string_axioms;

/// A displayed chip group as text.
pub struct GroupView {
    pub name: Seq<char>,
    pub display_name: Seq<char>,
    pub css_class: Seq<char>,
    pub tokens: Seq<Seq<char>>,
}

pub open spec fn group_view(g: ChipGroupDisplay) -> GroupView {
    GroupView {
        name: g.name@,
        display_name: g.display_name@,
        css_class: g.css_class@,
        tokens: views(g.tokens@),
    }
}

pub open spec fn group_views(gs: Seq<ChipGroupDisplay>) -> Seq<GroupView> {
    gs.map_values(|g: ChipGroupDisplay| group_view(g))
}

/// The chip groups of the challenges of a module, challenge after challenge.
pub open spec fn challenge_chips(cs: Seq<Challenge>, module: u32) -> Seq<ChipGroup>
    decreases cs.len(),
{
    if cs.len() == 0 {
        seq![]
    } else {
        challenge_chips(cs.drop_last(), module) + if cs.last().module == module {
            cs.last().chips@
        } else {
            Seq::<ChipGroup>::empty()
        }
    }
}

/// The chip groups of every module up to `module_id` (by id), in pack order.
pub open spec fn compose_sources(ms: Seq<ModuleInfo>, cs: Seq<Challenge>, module_id: u32) -> Seq<
    ChipGroup,
>
    decreases ms.len(),
{
    if ms.len() == 0 {
        seq![]
    } else {
        compose_sources(ms.drop_last(), cs, module_id) + if ms.last().id <= module_id {
            challenge_chips(cs, ms.last().id)
        } else {
            Seq::<ChipGroup>::empty()
        }
    }
}

/// The first category with this name.
pub open spec fn category_named(cats: Seq<TokenCategory>, name: Seq<char>) -> Option<TokenCategory>
    decreases cats.len(),
{
    if cats.len() == 0 {
        None
    } else if cats[0].name@ == name {
        Some(cats[0])
    } else {
        category_named(cats.drop_first(), name)
    }
}

/// The position of the first group with this name; the length when none.
pub open spec fn group_position(gs: Seq<GroupView>, name: Seq<char>) -> nat
    decreases gs.len(),
{
    if gs.len() == 0 {
        0
    } else if gs[0].name == name {
        0
    } else {
        1 + group_position(gs.drop_first(), name)
    }
}

/// `acc` with each token of `ts` it lacks appended, in order.
pub open spec fn add_new_tokens(acc: Seq<Seq<char>>, ts: Seq<Seq<char>>) -> Seq<Seq<char>>
    decreases ts.len(),
{
    if ts.len() == 0 {
        acc
    } else {
        let a = add_new_tokens(acc, ts.drop_last());
        if a.contains(ts.last()) {
            a
        } else {
            a.push(ts.last())
        }
    }
}

/// The groups after one more chip group: merged into the group of the same
/// name (new tokens appended), or added with its category's display name
/// and class (its own name and no class without a category).
pub open spec fn add_group(acc: Seq<GroupView>, cg: ChipGroup, cats: Seq<TokenCategory>) -> Seq<
    GroupView,
> {
    let k = group_position(acc, cg.group@);
    if k < acc.len() {
        acc.update(
            k as int,
            GroupView { tokens: add_new_tokens(acc[k as int].tokens, views(cg.tokens@)), ..acc[k as int] },
        )
    } else {
        acc.push(
            GroupView {
                name: cg.group@,
                display_name: match category_named(cats, cg.group@) {
                    Some(c) => c.display_name@,
                    None => cg.group@,
                },
                css_class: match category_named(cats, cg.group@) {
                    Some(c) => c.css_class@,
                    None => Seq::<char>::empty(),
                },
                tokens: views(cg.tokens@),
            },
        )
    }
}

/// `add_group` for each chip group in turn.
pub open spec fn gather_groups(srcs: Seq<ChipGroup>, cats: Seq<TokenCategory>) -> Seq<GroupView>
    decreases srcs.len(),
{
    if srcs.len() == 0 {
        seq![]
    } else {
        add_group(gather_groups(srcs.drop_last(), cats), srcs.last(), cats)
    }
}

/// The position of the first group with this name.
fn find_group(gs: &Vec<ChipGroupDisplay>, name: &String) -> (r: usize)
    ensures
        r == group_position(group_views(gs@), name@),
{
    let ghost v = group_views(gs@);
    let mut i: usize = 0;
    assert(v.skip(0) =~= v);
    while i < gs.len()
        invariant
            i <= gs@.len(),
            v == group_views(gs@),
            group_position(v, name@) == i + group_position(v.skip(i as int), name@),
        decreases gs@.len() - i,
    {
        assert(v.skip(i as int)[0] == group_view(gs@[i as int]));
        assert(v.skip(i as int).drop_first() =~= v.skip(i + 1));
        if str_eq(gs[i].name.as_str(), name.as_str()) {
            return i;
        }
        i = i + 1;
    }
    i
}

/// The first category with this name.
fn find_category<'a>(cats: &'a Vec<TokenCategory>, name: &String) -> (r: Option<&'a TokenCategory>)
    ensures
        match r {
            Some(c) => category_named(cats@, name@) == Some(*c),
            None => category_named(cats@, name@) is None,
        },
{
    let mut i: usize = 0;
    assert(cats@.skip(0) =~= cats@);
    while i < cats.len()
        invariant
            i <= cats@.len(),
            category_named(cats@, name@) == category_named(cats@.skip(i as int), name@),
        decreases cats@.len() - i,
    {
        assert(cats@.skip(i as int)[0] == cats@[i as int]);
        assert(cats@.skip(i as int).drop_first() =~= cats@.skip(i + 1));
        if str_eq(cats[i].name.as_str(), name.as_str()) {
            return Some(&cats[i]);
        }
        i = i + 1;
    }
    None
}

/// Appends to `acc` each token of `ts` that it lacks.
fn append_new_tokens(acc: &mut Vec<String>, ts: &Vec<String>)
    ensures
        views(final(acc)@) == add_new_tokens(views(old(acc)@), views(ts@)),
{
    let ghost start = views(acc@);
    let mut i: usize = 0;
    while i < ts.len()
        invariant
            i <= ts@.len(),
            views(acc@) == add_new_tokens(start, views(ts@.take(i as int))),
        decreases ts@.len() - i,
    {
        assert(views(ts@.take(i + 1)).drop_last() =~= views(ts@.take(i as int)));
        assert(views(ts@.take(i + 1)).last() == ts@[i as int]@);
        if !contains_string(acc.as_slice(), &ts[i]) {
            let ghost prev = views(acc@);
            acc.push(ts[i].clone());
            assert(views(acc@) =~= prev.push(ts@[i as int]@));
        }
        i = i + 1;
    }
    assert(ts@.take(ts@.len() as int) =~= ts@);
}

fn clone_strings(v: &Vec<String>) -> (r: Vec<String>)
    ensures
        r@ == v@,
{
    let mut r: Vec<String> = Vec::new();
    let mut i: usize = 0;
    while i < v.len()
        invariant
            i <= v@.len(),
            r@ == v@.take(i as int),
        decreases v@.len() - i,
    {
        r.push(v[i].clone());
        assert(v@.take(i + 1) =~= v@.take(i as int).push(v@[i as int]));
        i = i + 1;
    }
    assert(v@.take(v@.len() as int) =~= v@);
    r
}

/// Adds one chip group to the gathered groups.
fn add_chip_group(groups: &mut Vec<ChipGroupDisplay>, cg: &ChipGroup, cats: &Vec<TokenCategory>)
    ensures
        group_views(final(groups)@) == add_group(group_views(old(groups)@), *cg, cats@),
{
    let ghost before = group_views(groups@);
    let k = find_group(groups, &cg.group);
    if k < groups.len() {
        let mut g = groups.remove(k);
        let ghost gv = group_view(g);
        append_new_tokens(&mut g.tokens, &cg.tokens);
        groups.insert(k, g);
        assert(group_views(groups@) =~= before.update(
            k as int,
            GroupView { tokens: add_new_tokens(gv.tokens, views(cg.tokens@)), ..gv },
        ));
    } else {
        let (display_name, css_class) = match find_category(cats, &cg.group) {
            Some(c) => (owned(c.display_name.as_str()), owned(c.css_class.as_str())),
            None => (owned(cg.group.as_str()), String::new()),
        };
        let g = ChipGroupDisplay {
            name: owned(cg.group.as_str()),
            display_name,
            css_class,
            tokens: clone_strings(&cg.tokens),
        };
        groups.push(g);
        assert(group_views(groups@) =~= before.push(group_view(g)));
    }
}

/// How a challenge's chip group is shown: its name, the display name and
/// chip class of the category of that name (the name itself and no class
/// without one), and its tokens.
pub open spec fn displayed_group(cg: ChipGroup, cats: Seq<TokenCategory>) -> GroupView {
    match category_named(cats, cg.group@) {
        Some(c) => GroupView {
            name: cg.group@,
            display_name: c.display_name@,
            css_class: c.css_class@,
            tokens: views(cg.tokens@),
        },
        None => GroupView {
            name: cg.group@,
            display_name: cg.group@,
            css_class: Seq::empty(),
            tokens: views(cg.tokens@),
        },
    }
}

/// The chip groups of a lesson's picker: each chip group of the challenge,
/// in order, shown with its category.
pub fn lesson_chip_groups(pack: &LanguagePack, challenge: &Challenge) -> (r: Vec<ChipGroupDisplay>)
    ensures
        r@.len() == challenge.chips@.len(),
        forall|i: int|
            0 <= i < r@.len() ==> group_view(#[trigger] r@[i]) == displayed_group(
                challenge.chips@[i],
                pack.categories@,
            ),
{
    let mut r: Vec<ChipGroupDisplay> = Vec::new();
    let mut i: usize = 0;
    while i < challenge.chips.len()
        invariant
            i <= challenge.chips@.len(),
            r@.len() == i,
            forall|k: int|
                0 <= k < i ==> group_view(#[trigger] r@[k]) == displayed_group(
                    challenge.chips@[k],
                    pack.categories@,
                ),
        decreases challenge.chips@.len() - i,
    {
        let cg = &challenge.chips[i];
        let (display_name, css_class) = match find_category(&pack.categories, &cg.group) {
            Some(c) => (owned(c.display_name.as_str()), owned(c.css_class.as_str())),
            None => (owned(cg.group.as_str()), String::new()),
        };
        let g = ChipGroupDisplay {
            name: owned(cg.group.as_str()),
            display_name,
            css_class,
            tokens: clone_strings(&cg.tokens),
        };
        r.push(g);
        i = i + 1;
    }
    r
}

/// The chip groups offered in Free Compose after module `module_id`: the
/// chips of every challenge of the modules up to it, merged by group name
/// in pack order.
pub fn compose_chip_groups(pack: &LanguagePack, module_id: u32) -> (r: Vec<ChipGroupDisplay>)
    ensures
        group_views(r@) == gather_groups(
            compose_sources(pack.modules@, pack.challenges@, module_id),
            pack.categories@,
        ),
{
    let ghost ms = pack.modules@;
    let ghost cs = pack.challenges@;
    let ghost cats = pack.categories@;
    let mut groups: Vec<ChipGroupDisplay> = Vec::new();
    let mut i: usize = 0;
    while i < pack.modules.len()
        invariant
            ms == pack.modules@,
            cs == pack.challenges@,
            cats == pack.categories@,
            i <= ms.len(),
            group_views(groups@) == gather_groups(compose_sources(ms.take(i as int), cs, module_id), cats),
        decreases ms.len() - i,
    {
        let mid = pack.modules[i].id;
        let ghost done_modules = compose_sources(ms.take(i as int), cs, module_id);
        assert(ms.take(i + 1).drop_last() =~= ms.take(i as int));
        assert(ms.take(i + 1).last() == ms[i as int]);
        if mid <= module_id {
            let mut j: usize = 0;
            while j < pack.challenges.len()
                invariant
                    ms == pack.modules@,
                    cs == pack.challenges@,
                    cats == pack.categories@,
                    j <= cs.len(),
                    group_views(groups@) == gather_groups(
                        done_modules + challenge_chips(cs.take(j as int), mid),
                        cats,
                    ),
                decreases cs.len() - j,
            {
                let c = &pack.challenges[j];
                let ghost before_j = done_modules + challenge_chips(cs.take(j as int), mid);
                assert(cs.take(j + 1).drop_last() =~= cs.take(j as int));
                assert(cs.take(j + 1).last() == cs[j as int]);
                if c.module == mid {
                    let mut k: usize = 0;
                    while k < c.chips.len()
                        invariant
                            cats == pack.categories@,
                            k <= c.chips@.len(),
                            group_views(groups@) == gather_groups(
                                before_j + c.chips@.take(k as int),
                                cats,
                            ),
                        decreases c.chips@.len() - k,
                    {
                        add_chip_group(&mut groups, &c.chips[k], &pack.categories);
                        assert((before_j + c.chips@.take(k + 1)).drop_last() =~= before_j
                            + c.chips@.take(k as int));
                        assert((before_j + c.chips@.take(k + 1)).last() == c.chips@[k as int]);
                        k = k + 1;
                    }
                    assert(c.chips@.take(c.chips@.len() as int) =~= c.chips@);
                    assert(done_modules + challenge_chips(cs.take(j + 1), mid) =~= before_j
                        + c.chips@);
                } else {
                    assert(done_modules + challenge_chips(cs.take(j + 1), mid) =~= before_j);
                    assert(before_j + c.chips@.take(0) =~= before_j);
                }
                j = j + 1;
            }
            assert(cs.take(cs.len() as int) =~= cs);
            assert(compose_sources(ms.take(i + 1), cs, module_id) =~= done_modules
                + challenge_chips(cs, mid));
        } else {
            assert(compose_sources(ms.take(i + 1), cs, module_id) =~= done_modules);
        }
        i = i + 1;
    }
    assert(ms.take(ms.len() as int) =~= ms);
    groups
}

/// Whether the adapter registered for `language` accepts the program it
/// rebuilds from the tokens joined by spaces, as a statement with no
/// scaffold.
pub open spec fn compose_verdict(registry: AdapterRegistry, language: Seq<char>, tokens: Seq<String>) -> bool {
    match registry.wraps(language, join(views(tokens), " "@), FragmentType::Statement, ""@) {
        Some(p) => registry.checks(language, p) is Ok,
        None => false,
    }
}

/// The structural verdict on a composed statement, from the adapter of the
/// language: whether the tokens, joined by spaces, wrap into a program that
/// the adapter accepts. None without an adapter for the language.
pub fn compose_check(registry: &AdapterRegistry, language: &str, tokens: &[String]) -> (r: Option<
    bool,
>)
    ensures
        r is None <==> !registry@.contains(language@),
        registry@.contains(language@) ==> r == Some(compose_verdict(*registry, language@, tokens@)),
{
    match registry.get(language) {
        None => None,
        Some(adapter) => {
            let fragment = join_strings(tokens, " ");
            match adapter.wrap_fragment(fragment.as_str(), &FragmentType::Statement, "") {
                Some(program) => Some(adapter.validate_program_structure(program.as_str()).is_ok()),
                None => Some(false),
            }
        },
    }
}

/// The Free Compose canvas: the tokens placed, each with its CSS class,
/// and the verdict of the last validation, if it still stands.
pub struct ComposeSession {
    pub assembled: Vec<(String, String)>,
    pub verdict: Option<bool>,
}

/// `b` is `a` after a chip tap: the token placed last, no verdict.
pub open spec fn compose_tapped(a: ComposeSession, b: ComposeSession, token: String, css: String) -> bool {
    &&& b.assembled@ == a.assembled@.push((token, css))
    &&& b.verdict is None
}

/// `b` is `a` after an undo: the last token (if any) removed, the verdict
/// kept.
pub open spec fn compose_undone(a: ComposeSession, b: ComposeSession) -> bool {
    &&& b.assembled@ == if a.assembled@.len() > 0 {
        a.assembled@.drop_last()
    } else {
        a.assembled@
    }
    &&& b.verdict == a.verdict
}

impl ComposeSession {
    /// An empty canvas with no verdict.
    pub fn new() -> (r: Self)
        ensures
            r.assembled@.len() == 0,
            r.verdict is None,
    {
        ComposeSession { assembled: Vec::new(), verdict: None }
    }

    /// A chip was tapped: its token is placed last and the verdict goes.
    pub fn chip_tap(&mut self, token: String, css_class: String)
        ensures
            compose_tapped(*old(self), *final(self), token, css_class),
    {
        self.verdict = None;
        self.assembled.push((token, css_class));
    }

    /// A placed token was tapped: every token after it is removed.
    pub fn token_tap(&mut self, index: usize)
        requires
            index < usize::MAX,
        ensures
            final(self).assembled@ == if index + 1 < old(self).assembled@.len() {
                old(self).assembled@.take(index + 1)
            } else {
                old(self).assembled@
            },
            final(self).verdict == old(self).verdict,
    {
        self.assembled.truncate(index + 1);
        proof {
            if index + 1 < old(self).assembled@.len() {
                assert(old(self).assembled@.subrange(0, index + 1) =~= old(self).assembled@.take(
                    index + 1,
                ));
            } else if index + 1 == old(self).assembled@.len() {
                assert(old(self).assembled@.subrange(0, index + 1) =~= old(self).assembled@);
            }
        }
    }

    /// The last placed token is removed, if any.
    pub fn undo(&mut self)
        ensures
            compose_undone(*old(self), *final(self)),
    {
        self.assembled.pop();
    }

    /// Everything placed is removed and the verdict goes.
    pub fn clear(&mut self)
        ensures
            final(self).assembled@.len() == 0,
            final(self).verdict is None,
    {
        self.assembled.clear();
        self.verdict = None;
    }

    /// Validation is offered once something is placed.
    pub fn can_validate(&self) -> (r: bool)
        ensures
            r == (self.assembled@.len() > 0),
    {
        self.assembled.len() > 0
    }

    /// The placed tokens, without their classes.
    pub fn tokens(&self) -> (r: Vec<String>)
        ensures
            r@ == self.assembled@.map_values(|p: (String, String)| p.0),
    {
        let mut r: Vec<String> = Vec::new();
        let mut i: usize = 0;
        while i < self.assembled.len()
            invariant
                i <= self.assembled@.len(),
                r@ == self.assembled@.take(i as int).map_values(|p: (String, String)| p.0),
            decreases self.assembled@.len() - i,
        {
            r.push(self.assembled[i].0.clone());
            assert(self.assembled@.take(i + 1).map_values(|p: (String, String)| p.0)
                =~= self.assembled@.take(i as int).map_values(|p: (String, String)| p.0).push(
                self.assembled@[i as int].0,
            ));
            i = i + 1;
        }
        assert(self.assembled@.take(self.assembled@.len() as int) =~= self.assembled@);
        r
    }

    /// Validates the placed tokens with the language's adapter; without an
    /// adapter for the language nothing changes. The tokens stay.
    pub fn validate(&mut self, registry: &AdapterRegistry, language: &str)
        ensures
            final(self).assembled@ == old(self).assembled@,
            registry@.contains(language@) ==> final(self).verdict == Some(
                compose_verdict(*registry, language@, old(self).assembled@.map_values(|p: (String, String)| p.0)),
            ),
            !registry@.contains(language@) ==> final(self).verdict == old(self).verdict,
    {
        let tokens = self.tokens();
        if let Some(ok) = compose_check(registry, language, tokens.as_slice()) {
            self.verdict = Some(ok);
        }
    }

    /// The class of the canvas: valid, invalid, or none before a verdict.
    pub fn canvas_class(&self) -> (r: &'static str)
        ensures
            r@ == match self.verdict {
                Some(true) => "canvas-valid"@,
                Some(false) => "canvas-invalid"@,
                None => ""@,
            },
    {
        match self.verdict {
            Some(true) => "canvas-valid",
            Some(false) => "canvas-invalid",
            None => "",
        }
    }
}

// ── Laws ──

/// No two groups share a name.
pub open spec fn names_distinct(gs: Seq<GroupView>) -> bool {
    forall|i: int, j: int| 0 <= i < gs.len() && 0 <= j < gs.len() && i != j ==> gs[i].name != gs[j].name
}

/// Some group of `gs` is named `name` and offers `t`.
pub open spec fn offers(gs: Seq<GroupView>, name: Seq<char>, t: Seq<char>) -> bool {
    exists|i: int| 0 <= i < gs.len() && gs[i].name == name && (#[trigger] gs[i].tokens).contains(t)
}

proof fn lemma_group_position(gs: Seq<GroupView>, name: Seq<char>)
    ensures
        group_position(gs, name) <= gs.len(),
        group_position(gs, name) < gs.len() ==> gs[group_position(gs, name) as int].name == name,
        group_position(gs, name) == gs.len() ==> forall|i: int| 0 <= i < gs.len() ==> gs[i].name != name,
    decreases gs.len(),
{
    if gs.len() > 0 && gs[0].name != name {
        lemma_group_position(gs.drop_first(), name);
        assert forall|i: int| 0 < i < gs.len() implies gs[i] == gs.drop_first()[i - 1] by {}
    }
}

proof fn lemma_add_new_tokens(acc: Seq<Seq<char>>, ts: Seq<Seq<char>>)
    ensures
        forall|x: Seq<char>| acc.contains(x) ==> #[trigger] add_new_tokens(acc, ts).contains(x),
        forall|k: int| 0 <= k < ts.len() ==> add_new_tokens(acc, ts).contains(#[trigger] ts[k]),
    decreases ts.len(),
{
    if ts.len() > 0 {
        let a = add_new_tokens(acc, ts.drop_last());
        lemma_add_new_tokens(acc, ts.drop_last());
        let r = add_new_tokens(acc, ts);
        assert forall|x: Seq<char>| a.contains(x) implies r.contains(x) by {
            if r != a {
                let j = choose|j: int| 0 <= j < a.len() && a[j] == x;
                assert(r[j] == x);
            }
        }
        assert forall|k: int| 0 <= k < ts.len() implies r.contains(#[trigger] ts[k]) by {
            if k < ts.len() - 1 {
                assert(ts.drop_last()[k] == ts[k]);
                assert(a.contains(ts[k]));
            } else if r != a {
                assert(r[r.len() - 1] == ts[k]);
            }
        }
    }
}

/// The groups Free Compose offers never repeat a name, and every chip of
/// every challenge up to the module is offered under its group's name.
pub proof fn law_compose_groups_cover_sources(srcs: Seq<ChipGroup>, cats: Seq<TokenCategory>)
    ensures
        names_distinct(gather_groups(srcs, cats)),
        forall|s: int, t: int|
            0 <= s < srcs.len() && 0 <= t < srcs[s].tokens@.len() ==> offers(
                gather_groups(srcs, cats),
                srcs[s].group@,
                (#[trigger] srcs[s].tokens@[t])@,
            ),
    decreases srcs.len(),
{
    if srcs.len() > 0 {
        let prev = gather_groups(srcs.drop_last(), cats);
        law_compose_groups_cover_sources(srcs.drop_last(), cats);
        let cg = srcs.last();
        let r = gather_groups(srcs, cats);
        assert(r == add_group(prev, cg, cats));
        lemma_group_position(prev, cg.group@);
        let k = group_position(prev, cg.group@);
        lemma_add_new_tokens(if k < prev.len() {
            prev[k as int].tokens
        } else {
            Seq::<Seq<char>>::empty()
        }, views(cg.tokens@));
        assert(r.len() >= prev.len());
        assert forall|i: int| 0 <= i < prev.len() implies r[i].name == prev[i].name && (forall|
            x: Seq<char>,
        | prev[i].tokens.contains(x) ==> r[i].tokens.contains(x)) by {
            if k < prev.len() && i == k {
                lemma_add_new_tokens(prev[k as int].tokens, views(cg.tokens@));
            }
        }
        assert forall|t: int| 0 <= t < cg.tokens@.len() implies offers(
            r,
            cg.group@,
            (#[trigger] cg.tokens@[t])@,
        ) by {
            assert(views(cg.tokens@)[t] == cg.tokens@[t]@);
            if k < prev.len() {
                assert(r[k as int].tokens.contains(cg.tokens@[t]@));
            } else {
                assert(r[prev.len() as int].tokens.contains(cg.tokens@[t]@));
            }
        }
        assert forall|s: int, t: int|
            0 <= s < srcs.len() && 0 <= t < srcs[s].tokens@.len() implies offers(
                r,
                srcs[s].group@,
                (#[trigger] srcs[s].tokens@[t])@,
            ) by {
            if s < srcs.len() - 1 {
                assert(srcs.drop_last()[s] == srcs[s]);
                assert(offers(prev, srcs[s].group@, srcs[s].tokens@[t]@));
                let i = choose|i: int|
                    0 <= i < prev.len() && prev[i].name == srcs[s].group@ && (#[trigger] prev[i].tokens).contains(
                        srcs[s].tokens@[t]@,
                    );
                assert(r[i].tokens.contains(srcs[s].tokens@[t]@));
            } else {
                assert(srcs[s] == cg);
            }
        }
        assert forall|i: int, j: int| 0 <= i < r.len() && 0 <= j < r.len() && i != j implies r[i].name
            != r[j].name by {
            if i < prev.len() && j < prev.len() {
            } else if i < prev.len() {
                assert(r[j].name == cg.group@);
            } else {
                assert(r[i].name == cg.group@);
            }
        }
    }
}

/// On the Free Compose canvas, undo takes back a chip tap: the tokens are
/// those before the tap, and the verdict is gone.
pub proof fn law_compose_undo_takes_back_a_tap(
    a: ComposeSession,
    b: ComposeSession,
    c: ComposeSession,
    token: String,
    css: String,
)
    requires
        compose_tapped(a, b, token, css),
        compose_undone(b, c),
    ensures
        c.assembled@ == a.assembled@,
        c.verdict is None,
{
    assert(a.assembled@.push((token, css)).drop_last() =~= a.assembled@);
}

} // verus!
