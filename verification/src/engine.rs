//! The lesson engine: the language-pack registry, answer validation with a
//! token diff, the contextual chip-highlighting state machine and the
//! module / challenge lookups. Nothing here is specific to one language;
//! all language knowledge comes from the pack data.
use vstd::prelude::*;
use crate::models::{
    Challenge, ChipGroupState, ContextRule, LanguageEntry, LanguageMetadata, LanguagePack,
    LanguageProgress, LanguageStatus, ModuleInfo, TokenCategory, TokenDiff, ValidationResult,
};
use crate::text::{contains_str, contains_string, owned, str_eq, strings_eq, views};

verus! {

broadcast use vstd::string::group_string_axioms;

// ══════════════════════════════════════════════════════════════
// Language Registry
// ══════════════════════════════════════════════════════════════

/// The abstract content of a registry: the packs by language id (ids are
/// distinct) and the listed entries, in loading order.
pub struct RegistryView {
    pub packs: Seq<(Seq<char>, LanguagePack)>,
    pub entries: Seq<LanguageEntry>,
}

/// Registry of all available language packs.
#[derive(Debug)]
pub struct LanguagePackRegistry {
    packs: Vec<(String, LanguagePack)>,
    entries: Vec<LanguageEntry>,
}

/// The pack stored under `id` in `ps`, if any.
pub open spec fn pack_for(ps: Seq<(Seq<char>, LanguagePack)>, id: Seq<char>) -> Option<LanguagePack> {
    if exists|i: int| 0 <= i < ps.len() && ps[i].0 == id {
        Some(ps[choose|i: int| 0 <= i < ps.len() && ps[i].0 == id].1)
    } else {
        None
    }
}

/// The pack stored under `id` if it is available; none for an unknown id
/// or a coming-soon pack.
pub open spec fn available_pack(ps: Seq<(Seq<char>, LanguagePack)>, id: Seq<char>) -> Option<LanguagePack> {
    match pack_for(ps, id) {
        Some(p) => if p.metadata.status == LanguageStatus::Available {
            Some(p)
        } else {
            None
        },
        None => None,
    }
}

/// Storing `p` under `id`: replaces the pack of that id, or appends it.
pub open spec fn insert_pack(
    ps: Seq<(Seq<char>, LanguagePack)>,
    id: Seq<char>,
    p: LanguagePack,
) -> Seq<(Seq<char>, LanguagePack)> {
    if exists|i: int| 0 <= i < ps.len() && ps[i].0 == id {
        ps.update(choose|i: int| 0 <= i < ps.len() && ps[i].0 == id, (id, p))
    } else {
        ps.push((id, p))
    }
}

/// No two packs share an id.
pub open spec fn distinct_ids(ps: Seq<(Seq<char>, LanguagePack)>) -> bool {
    forall|i: int, j: int| 0 <= i < ps.len() && 0 <= j < ps.len() && i != j ==> ps[i].0 != ps[j].0
}

/// The packs that loading all of `input` (each parsed successfully) yields.
pub open spec fn loaded_packs(input: Seq<(String, Result<LanguagePack, String>)>) -> Seq<
    (Seq<char>, LanguagePack),
>
    decreases input.len(),
{
    if input.len() == 0 {
        seq![]
    } else {
        insert_pack(
            loaded_packs(input.drop_last()),
            input.last().0@,
            input.last().1->Ok_0,
        )
    }
}

/// `e` is the registry entry listed for the pack `id` with metadata `md`.
pub open spec fn entry_matches(e: LanguageEntry, id: Seq<char>, md: LanguageMetadata) -> bool {
    &&& e.id == md.id
    &&& e.display_name == md.display_name
    &&& e.version == md.version
    &&& e.status == md.status
    &&& e.primary_hue == md.primary_hue
    &&& e.icon == md.icon
    &&& e.tagline == md.tagline
    &&& e.pack_path@ == id + ".json"@
}

/// Index of the first input that failed to parse (the input's length
/// when every input parsed).
pub open spec fn first_parse_error(input: Seq<(String, Result<LanguagePack, String>)>) -> nat
    decreases input.len(),
{
    if input.len() == 0 {
        0
    } else if input[0].1 is Err {
        0
    } else {
        1 + first_parse_error(input.drop_first())
    }
}

proof fn lemma_first_parse_error(input: Seq<(String, Result<LanguagePack, String>)>, k: int)
    requires
        0 <= k <= input.len(),
        forall|j: int| 0 <= j < k ==> (#[trigger] input[j]).1 is Ok,
        k < input.len() ==> input[k].1 is Err,
    ensures
        first_parse_error(input) == k,
    decreases k,
{
    if k > 0 {
        assert forall|j: int| 0 <= j < k - 1 implies (#[trigger] input.drop_first()[j]).1 is Ok by {
            assert(input.drop_first()[j] == input[j + 1]);
        }
        lemma_first_parse_error(input.drop_first(), k - 1);
    }
}

impl View for LanguagePackRegistry {
    type V = RegistryView;

    closed spec fn view(&self) -> RegistryView {
        RegistryView {
            packs: self.packs@.map_values(|p: (String, LanguagePack)| (p.0@, p.1)),
            entries: self.entries@,
        }
    }
}

proof fn lemma_insert_pack_distinct(ps: Seq<(Seq<char>, LanguagePack)>, id: Seq<char>, p: LanguagePack)
    requires
        distinct_ids(ps),
    ensures
        distinct_ids(insert_pack(ps, id, p)),
        pack_for(insert_pack(ps, id, p), id) == Some(p),
{
    let r = insert_pack(ps, id, p);
    if exists|i: int| 0 <= i < ps.len() && ps[i].0 == id {
        let k = choose|i: int| 0 <= i < ps.len() && ps[i].0 == id;
        assert(r[k].0 == id);
        assert forall|i: int| 0 <= i < r.len() && r[i].0 == id implies i == k by {}
    } else {
        assert(r[ps.len() as int].0 == id);
        assert forall|i: int| 0 <= i < r.len() && r[i].0 == id implies i == ps.len() by {}
    }
}

/// Position of the pack stored under `id`, if any.
fn find_key(stored: &Vec<(String, LanguagePack)>, id: &String) -> (r: Option<usize>)
    ensures
        match r {
            Some(i) => i < stored@.len() && stored@[i as int].0@ == id@,
            None => forall|j: int| 0 <= j < stored@.len() ==> stored@[j].0@ != id@,
        },
{
    let mut i: usize = 0;
    while i < stored.len()
        invariant
            i <= stored@.len(),
            forall|j: int| 0 <= j < i ==> stored@[j].0@ != id@,
        decreases stored@.len() - i,
    {
        if stored[i].0 == *id {
            return Some(i);
        }
        i = i + 1;
    }
    None
}

impl LanguagePackRegistry {
    #[verifier::type_invariant]
    spec fn inv(&self) -> bool {
        distinct_ids(self@.packs)
    }

    /// Builds the registry from packs that have been parsed from their
    /// embedded sources, each given with its language id. The first pack
    /// that failed to parse makes the whole build fail with its id and
    /// message; otherwise every pack is stored under its id (a later pack
    /// replaces an earlier one of the same id) and listed as an entry.
    pub fn from_embedded(packs: Vec<(String, Result<LanguagePack, String>)>) -> (r: Result<
        Self,
        RegistryError,
    >)
        ensures
            r is Ok <==> first_parse_error(packs@) == packs@.len(),
            r is Ok ==> {
                &&& forall|k: int| 0 <= k < packs@.len() ==> (#[trigger] packs@[k]).1 is Ok
                &&& r->Ok_0@.packs == loaded_packs(packs@)
                &&& r->Ok_0@.entries.len() == packs@.len()
                &&& forall|k: int|
                    0 <= k < packs@.len() ==> entry_matches(
                        #[trigger] r->Ok_0@.entries[k],
                        packs@[k].0@,
                        packs@[k].1->Ok_0.metadata,
                    )
            },
            r is Err ==> {
                let k = first_parse_error(packs@) as int;
                &&& k < packs@.len()
                &&& r->Err_0->ParseError_language_id == packs@[k].0
                &&& r->Err_0->ParseError_message == packs@[k].1->Err_0
            },
    {
        let ghost input = packs@;
        let total = packs.len();
        let mut rest = packs;
        let mut stored: Vec<(String, LanguagePack)> = Vec::new();
        let mut entries: Vec<LanguageEntry> = Vec::new();
        let mut k: usize = 0;
        while rest.len() > 0
            invariant
                k <= input.len(),
                input == packs@,
                input.len() == total,
                rest@ == input.skip(k as int),
                forall|j: int| 0 <= j < k ==> (#[trigger] input[j]).1 is Ok,
                stored@.map_values(|p: (String, LanguagePack)| (p.0@, p.1)) == loaded_packs(
                    input.take(k as int),
                ),
                distinct_ids(loaded_packs(input.take(k as int))),
                entries@.len() == k,
                forall|j: int|
                    0 <= j < k ==> entry_matches(
                        #[trigger] entries@[j],
                        input[j].0@,
                        input[j].1->Ok_0.metadata,
                    ),
            decreases rest@.len(),
        {
            let (id, parsed) = rest.remove(0);
            assert(input[k as int] == (id, parsed));
            let pack = match parsed {
                Ok(p) => p,
                Err(message) => {
                    proof {
                        lemma_first_parse_error(input, k as int);
                    }
                    return Err(RegistryError::ParseError { language_id: id, message });
                },
            };
            let md = &pack.metadata;
            let mut path = id.clone();
            path.append(".json");
            let entry = LanguageEntry {
                id: md.id.clone(),
                display_name: md.display_name.clone(),
                version: md.version.clone(),
                status: md.status,
                primary_hue: md.primary_hue.clone(),
                icon: md.icon.clone(),
                tagline: md.tagline.clone(),
                pack_path: path,
            };
            entries.push(entry);
            let ghost before = stored@.map_values(|p: (String, LanguagePack)| (p.0@, p.1));
            proof {
                assert(input.take(k + 1).drop_last() =~= input.take(k as int));
                assert(input.take(k + 1).last() == input[k as int]);
                lemma_insert_pack_distinct(before, id@, pack);
            }
            let slot = find_key(&stored, &id);
            if let Some(i) = slot {
                proof {
                    assert(before[i as int].0 == id@);
                    assert(distinct_ids(before));
                    assert(forall|j: int| 0 <= j < before.len() && before[j].0 == id@ ==> j == i);
                }
                stored.set(i, (id, pack));
                assert(stored@.map_values(|p: (String, LanguagePack)| (p.0@, p.1)) =~= insert_pack(
                    before,
                    input[k as int].0@,
                    pack,
                ));
            } else {
                proof {
                    assert forall|j: int| 0 <= j < before.len() implies before[j].0 != id@ by {
                        assert(before[j].0 == stored@[j].0@);
                    }
                }
                stored.push((id, pack));
                assert(stored@.map_values(|p: (String, LanguagePack)| (p.0@, p.1)) =~= insert_pack(
                    before,
                    input[k as int].0@,
                    pack,
                ));
            }
            k = k + 1;
        }
        assert(input.take(k as int) =~= input);
        proof {
            lemma_first_parse_error(input, k as int);
        }
        Ok(LanguagePackRegistry { packs: stored, entries })
    }

    /// All languages in the registry with their status.
    pub fn list_languages(&self) -> (r: &[LanguageEntry])
        ensures
            r@ == self@.entries,
    {
        self.entries.as_slice()
    }

    /// Only the available (not coming-soon) languages, in listing order.
    pub fn available_languages(&self) -> (r: Vec<&LanguageEntry>)
        ensures
            r@.map_values(|e: &LanguageEntry| *e) == self@.entries.filter(
                |e: LanguageEntry| e.status == LanguageStatus::Available,
            ),
    {
        let ghost pred = |e: LanguageEntry| e.status == LanguageStatus::Available;
        let mut r: Vec<&LanguageEntry> = Vec::new();
        let mut i: usize = 0;
        while i < self.entries.len()
            invariant
                i <= self.entries@.len(),
                pred == (|e: LanguageEntry| e.status == LanguageStatus::Available),
                r@.map_values(|e: &LanguageEntry| *e) == self.entries@.take(i as int).filter(pred),
            decreases self.entries@.len() - i,
        {
            proof {
                assert(self.entries@.take(i + 1) =~= self.entries@.take(i as int).push(
                    self.entries@[i as int],
                ));
                self.entries@.take(i as int).lemma_filter_push(self.entries@[i as int], pred);
            }
            let ghost before = r@.map_values(|e: &LanguageEntry| *e);
            if self.entries[i].status == LanguageStatus::Available {
                r.push(&self.entries[i]);
                assert(r@.map_values(|e: &LanguageEntry| *e) =~= before.push(self.entries@[i as int]));
            } else {
                assert(r@.map_values(|e: &LanguageEntry| *e) =~= before);
            }
            i = i + 1;
        }
        assert(self.entries@.take(self.entries@.len() as int) =~= self.entries@);
        r
    }

    /// The pack of a language; `None` for an unknown id or a coming-soon
    /// pack.
    pub fn get_pack(&self, language_id: &str) -> (r: Option<&LanguagePack>)
        ensures
            match r {
                Some(p) => available_pack(self@.packs, language_id@) == Some(*p),
                None => available_pack(self@.packs, language_id@) is None,
            },
    {
        proof {
            use_type_invariant(self);
        }
        let ghost ps = self@.packs;
        let mut i: usize = 0;
        while i < self.packs.len()
            invariant
                i <= self.packs@.len(),
                ps == self@.packs,
                distinct_ids(ps),
                forall|j: int| 0 <= j < i ==> self.packs@[j].0@ != language_id@,
            decreases self.packs@.len() - i,
        {
            if str_eq(self.packs[i].0.as_str(), language_id) {
                proof {
                    assert(ps[i as int].0 == language_id@);
                    assert(forall|j: int| 0 <= j < ps.len() && ps[j].0 == language_id@ ==> j == i);
                }
                if self.packs[i].1.metadata.status == LanguageStatus::Available {
                    return Some(&self.packs[i].1);
                } else {
                    return None;
                }
            }
            i = i + 1;
        }
        assert forall|j: int| 0 <= j < ps.len() implies ps[j].0 != language_id@ by {
            assert(ps[j].0 == self.packs@[j].0@);
        }
        None
    }

    /// Number of loaded packs.
    pub fn pack_count(&self) -> (n: usize)
        ensures
            n == self@.packs.len(),
    {
        self.packs.len()
    }

    /// Takes the pack of a language out of the registry, if it is there and
    /// available.
    pub fn take_pack(self, language_id: &str) -> (r: Option<LanguagePack>)
        ensures
            r == available_pack(self@.packs, language_id@),
    {
        proof {
            use_type_invariant(&self);
        }
        let ghost ps = self@.packs;
        let mut i: usize = 0;
        while i < self.packs.len()
            invariant
                i <= self.packs@.len(),
                ps == self@.packs,
                distinct_ids(ps),
                forall|j: int| 0 <= j < i ==> self.packs@[j].0@ != language_id@,
            decreases self.packs@.len() - i,
        {
            if str_eq(self.packs[i].0.as_str(), language_id) {
                proof {
                    assert(ps[i as int].0 == language_id@);
                    assert(forall|j: int| 0 <= j < ps.len() && ps[j].0 == language_id@ ==> j == i);
                }
                if self.packs[i].1.metadata.status != LanguageStatus::Available {
                    return None;
                }
                let LanguagePackRegistry { mut packs, entries: _ } = self;
                let (_, pack) = packs.remove(i);
                return Some(pack);
            }
            i = i + 1;
        }
        assert forall|j: int| 0 <= j < ps.len() implies ps[j].0 != language_id@ by {
            assert(ps[j].0 == self.packs@[j].0@);
        }
        None
    }
}

#[derive(Debug, Clone, PartialEq)]
pub enum RegistryError {
    ParseError { language_id: String, message: String },
}

/// The default registry: every language pack embedded in the app (today,
/// Rust), loaded under its id.
pub fn build_default_registry() -> (r: LanguagePackRegistry)
    ensures
        r@.packs.len() == 1,
        r@.packs[0].0 == "rust"@,
        crate::rust_pack::is_rust_pack(r@.packs[0].1),
        r@.entries.len() == 1,
        entry_matches(r@.entries[0], "rust"@, r@.packs[0].1.metadata),
        r@.entries[0].status == LanguageStatus::Available,
{
    let pack = crate::rust_pack::rust_pack();
    let mut input: Vec<(String, Result<LanguagePack, String>)> = Vec::new();
    input.push((owned("rust"), Ok(pack)));
    let ghost inp = input@;
    let r = LanguagePackRegistry::from_embedded(input);
    proof {
        assert(inp.drop_last() =~= Seq::<(String, Result<LanguagePack, String>)>::empty());
        assert(loaded_packs(inp.drop_last()) =~= Seq::<(Seq<char>, LanguagePack)>::empty());
        assert(inp.last().0@ == "rust"@);
        assert(loaded_packs(inp) =~= seq![("rust"@, pack)]);
    }
    match r {
        Ok(reg) => reg,
        Err(_) => {
            proof {
                lemma_first_parse_error(inp, 1);
            }
            LanguagePackRegistry { packs: Vec::new(), entries: Vec::new() }
        },
    }
}

// ══════════════════════════════════════════════════════════════
// Token Sequence Validation
// ══════════════════════════════════════════════════════════════

/// The diff entry at position `i` of a user's tokens against the answer.
pub open spec fn diff_at(user: Seq<String>, answer: Seq<String>, i: int) -> TokenDiff {
    if i < user.len() && i < answer.len() {
        if user[i]@ == answer[i]@ {
            TokenDiff::Match(user[i])
        } else {
            TokenDiff::Wrong { got: user[i], expected: answer[i] }
        }
    } else if i < user.len() {
        TokenDiff::Extra(user[i])
    } else {
        TokenDiff::Missing(answer[i])
    }
}

/// The full diff: one entry per position of the longer sequence.
pub open spec fn is_diff(d: Seq<TokenDiff>, user: Seq<String>, answer: Seq<String>) -> bool {
    &&& d.len() == if user.len() >= answer.len() { user.len() } else { answer.len() }
    &&& forall|i: int| 0 <= i < d.len() ==> #[trigger] d[i] == diff_at(user, answer, i)
}

/// The user's tokens spell the primary answer or one of its variants.
pub open spec fn answer_accepted(user: Seq<String>, c: Challenge) -> bool {
    ||| views(user) == views(c.answer@)
    ||| exists|k: int|
        0 <= k < c.answer_variants@.len() && views(user) == views(
            #[trigger] c.answer_variants@[k]@,
        )
}

/// How many of the first `n` positions hold the same token in both
/// sequences.
pub open spec fn matches_upto(user: Seq<String>, answer: Seq<String>, n: int) -> nat
    decreases n,
{
    if n <= 0 {
        0
    } else {
        matches_upto(user, answer, n - 1) + if user[n - 1]@ == answer[n - 1]@ {
            1nat
        } else {
            0nat
        }
    }
}

/// How many positions hold the same token in both sequences.
pub open spec fn match_count(user: Seq<String>, answer: Seq<String>) -> nat {
    matches_upto(user, answer, if user.len() <= answer.len() { user.len() as int } else { answer.len() as int })
}

/// The canonical answers of a challenge: the primary one, then each
/// variant.
pub open spec fn canonical_answers(c: Challenge) -> Seq<Seq<String>> {
    seq![c.answer@] + c.answer_variants@.map_values(|v: Vec<String>| v@)
}

/// Among the first `n` (at least one) candidates, the position of the first
/// one with the most tokens in place.
pub open spec fn closest_among(user: Seq<String>, cands: Seq<Seq<String>>, n: int) -> int
    decreases n,
{
    if n <= 1 {
        0
    } else {
        let b = closest_among(user, cands, n - 1);
        if match_count(user, cands[n - 1]) > match_count(user, cands[b]) {
            n - 1
        } else {
            b
        }
    }
}

/// The canonical answer closest to the user's tokens: the one with the most
/// tokens in place, the earliest (the primary answer first) on a tie.
pub open spec fn closest_answer(user: Seq<String>, c: Challenge) -> Seq<String> {
    let cands = canonical_answers(c);
    cands[closest_among(user, cands, cands.len() as int)]
}

/// The number of positions where both sequences hold the same token.
fn count_matches(user: &[String], answer: &[String]) -> (r: usize)
    ensures
        r == match_count(user@, answer@),
{
    let n = if user.len() <= answer.len() { user.len() } else { answer.len() };
    let mut r: usize = 0;
    let mut i: usize = 0;
    while i < n
        invariant
            n <= user@.len(),
            n <= answer@.len(),
            n == (if user@.len() <= answer@.len() { user@.len() } else { answer@.len() }),
            i <= n,
            r == matches_upto(user@, answer@, i as int),
            r <= i,
        decreases n - i,
    {
        if user[i] == answer[i] {
            r = r + 1;
        }
        i = i + 1;
    }
    r
}

/// Checks a user's token sequence: correct when it equals the answer or a
/// variant token by token; otherwise the diff against the closest canonical
/// answer.
pub fn validate_answer(user_tokens: &[String], challenge: &Challenge) -> (r: ValidationResult)
    ensures
        answer_accepted(user_tokens@, *challenge) ==> r is Correct,
        !answer_accepted(user_tokens@, *challenge) ==> (r matches ValidationResult::Wrong(d) && is_diff(
            d@,
            user_tokens@,
            closest_answer(user_tokens@, *challenge),
        )),
{
    if strings_eq(user_tokens, challenge.answer.as_slice()) {
        return ValidationResult::Correct;
    }
    let mut k: usize = 0;
    while k < challenge.answer_variants.len()
        invariant
            k <= challenge.answer_variants@.len(),
            views(user_tokens@) != views(challenge.answer@),
            forall|j: int|
                0 <= j < k ==> views(user_tokens@) != views(
                    #[trigger] challenge.answer_variants@[j]@,
                ),
        decreases challenge.answer_variants@.len() - k,
    {
        if strings_eq(user_tokens, challenge.answer_variants[k].as_slice()) {
            return ValidationResult::Correct;
        }
        k = k + 1;
    }
    let ghost cands = canonical_answers(*challenge);
    let mut best: &Vec<String> = &challenge.answer;
    let mut best_index: usize = 0;
    let mut best_count = count_matches(user_tokens, challenge.answer.as_slice());
    let mut j: usize = 0;
    assert(cands[0] == challenge.answer@);
    while j < challenge.answer_variants.len()
        invariant
            j <= challenge.answer_variants@.len(),
            cands == canonical_answers(*challenge),
            cands.len() == challenge.answer_variants@.len() + 1,
            best_index == closest_among(user_tokens@, cands, j + 1),
            best_index <= j,
            best@ == cands[best_index as int],
            best_count == match_count(user_tokens@, cands[best_index as int]),
        decreases challenge.answer_variants@.len() - j,
    {
        let v = &challenge.answer_variants[j];
        assert(cands[j + 1] == v@);
        let c = count_matches(user_tokens, v.as_slice());
        if c > best_count {
            best = v;
            best_index = j + 1;
            best_count = c;
        }
        j = j + 1;
    }
    let diff = compute_diff(user_tokens, best.as_slice());
    ValidationResult::Wrong(diff)
}

/// Position-by-position diff of the user's tokens against the answer.
pub fn compute_diff(user: &[String], answer: &[String]) -> (d: Vec<TokenDiff>)
    ensures
        is_diff(d@, user@, answer@),
{
    let mut diff: Vec<TokenDiff> = Vec::new();
    let max_len = if user.len() >= answer.len() { user.len() } else { answer.len() };
    let mut i: usize = 0;
    while i < max_len
        invariant
            max_len == if user@.len() >= answer@.len() { user@.len() } else { answer@.len() },
            i <= max_len,
            diff@.len() == i,
            forall|j: int| 0 <= j < i ==> #[trigger] diff@[j] == diff_at(user@, answer@, j),
        decreases max_len - i,
    {
        let entry = if i < user.len() && i < answer.len() {
            if user[i] == answer[i] {
                TokenDiff::Match(user[i].clone())
            } else {
                TokenDiff::Wrong { got: user[i].clone(), expected: answer[i].clone() }
            }
        } else if i < user.len() {
            TokenDiff::Extra(user[i].clone())
        } else {
            TokenDiff::Missing(answer[i].clone())
        };
        diff.push(entry);
        i = i + 1;
    }
    diff
}

// ══════════════════════════════════════════════════════════════
// Contextual State Machine
// ══════════════════════════════════════════════════════════════

/// The rule fires: its non-empty `after_tokens` are the tail of `tokens`.
pub open spec fn rule_applies(tokens: Seq<Seq<char>>, r: ContextRule) -> bool {
    let l = r.after_tokens@.len();
    &&& l > 0
    &&& tokens.len() >= l
    &&& tokens.subrange(tokens.len() - l, tokens.len() as int) == views(r.after_tokens@)
}

/// Rule `i` is the one in force: it fires, no firing rule is longer, and
/// no later firing rule is as long (the longest match wins; on a tie the
/// later rule wins).
pub open spec fn is_best_rule(tokens: Seq<Seq<char>>, rules: Seq<ContextRule>, i: int) -> bool {
    &&& 0 <= i < rules.len()
    &&& rule_applies(tokens, rules[i])
    &&& forall|j: int|
        0 <= j < rules.len() && rule_applies(tokens, #[trigger] rules[j]) ==> {
            &&& rules[j].after_tokens@.len() <= rules[i].after_tokens@.len()
            &&& (j > i ==> rules[j].after_tokens@.len() < rules[i].after_tokens@.len())
        }
}

/// Whether group `g` is highlighted after `tokens`: with no rule in force
/// every group shows; otherwise a group shows unless the rule dims it
/// without also highlighting it.
pub open spec fn group_highlighted(tokens: Seq<Seq<char>>, rules: Seq<ContextRule>, g: Seq<char>) -> bool {
    if exists|i: int| is_best_rule(tokens, rules, i) {
        let r = rules[choose|i: int| is_best_rule(tokens, rules, i)];
        views(r.highlight_groups@).contains(g) || !views(r.dim_groups@).contains(g)
    } else {
        true
    }
}

/// At most one rule is in force.
pub proof fn lemma_best_rule_unique(tokens: Seq<Seq<char>>, rules: Seq<ContextRule>, i: int, j: int)
    requires
        is_best_rule(tokens, rules, i),
        is_best_rule(tokens, rules, j),
    ensures
        i == j,
{
    if i < j {
        assert(rules[j].after_tokens@.len() < rules[i].after_tokens@.len());
        assert(rules[i].after_tokens@.len() <= rules[j].after_tokens@.len());
    } else if j < i {
        assert(rules[i].after_tokens@.len() < rules[j].after_tokens@.len());
        assert(rules[j].after_tokens@.len() <= rules[i].after_tokens@.len());
    }
}

/// Among the first `n` rules, one that fires with no firing rule longer
/// and no later one as long, when some of them fires.
proof fn lemma_best_in_prefix(tokens: Seq<Seq<char>>, rules: Seq<ContextRule>, n: int) -> (b: int)
    requires
        0 < n <= rules.len(),
        exists|k: int| 0 <= k < n && rule_applies(tokens, #[trigger] rules[k]),
    ensures
        0 <= b < n,
        rule_applies(tokens, rules[b]),
        forall|j: int|
            0 <= j < n && rule_applies(tokens, #[trigger] rules[j]) ==> {
                &&& rules[j].after_tokens@.len() <= rules[b].after_tokens@.len()
                &&& (j > b ==> rules[j].after_tokens@.len() < rules[b].after_tokens@.len())
            },
    decreases n,
{
    let last = n - 1;
    if exists|k: int| 0 <= k < last && rule_applies(tokens, #[trigger] rules[k]) {
        let b0 = lemma_best_in_prefix(tokens, rules, last);
        if rule_applies(tokens, rules[last]) && rules[last].after_tokens@.len()
            >= rules[b0].after_tokens@.len() {
            last
        } else {
            b0
        }
    } else {
        let k = choose|k: int| 0 <= k < n && rule_applies(tokens, #[trigger] rules[k]);
        assert(k == last);
        last
    }
}

/// When some rule fires, exactly one rule is in force; when none fires,
/// none is.
pub proof fn law_one_rule_in_force(tokens: Seq<Seq<char>>, rules: Seq<ContextRule>)
    ensures
        (exists|j: int| 0 <= j < rules.len() && rule_applies(tokens, #[trigger] rules[j]))
            <==> (exists|i: int| is_best_rule(tokens, rules, i)),
        forall|i: int, j: int|
            is_best_rule(tokens, rules, i) && is_best_rule(tokens, rules, j) ==> i == j,
{
    if exists|j: int| 0 <= j < rules.len() && rule_applies(tokens, #[trigger] rules[j]) {
        let b = lemma_best_in_prefix(tokens, rules, rules.len() as int);
        assert(is_best_rule(tokens, rules, b));
    }
    if exists|i: int| is_best_rule(tokens, rules, i) {
        let i = choose|i: int| is_best_rule(tokens, rules, i);
        assert(rule_applies(tokens, rules[i]));
    }
    assert forall|i: int, j: int|
        is_best_rule(tokens, rules, i) && is_best_rule(tokens, rules, j) implies i == j by {
        lemma_best_rule_unique(tokens, rules, i, j);
    }
}

/// Whether the last `pat.len()` tokens equal `pat` (and `pat` is non-empty).
fn tail_matches(tokens: &[String], pat: &[String]) -> (r: bool)
    ensures
        r == ({
            let l = pat@.len();
            l > 0 && tokens@.len() >= l && views(tokens@).subrange(
                tokens@.len() - l,
                tokens@.len() as int,
            ) == views(pat@)
        }),
{
    let l = pat.len();
    if l == 0 || tokens.len() < l {
        return false;
    }
    let n = tokens.len();
    let base = n - l;
    let mut i: usize = 0;
    while i < l
        invariant
            l == pat@.len(),
            n == tokens@.len(),
            base + l == n,
            i <= l,
            forall|j: int| 0 <= j < i ==> tokens@[base + j]@ == pat@[j]@,
        decreases l - i,
    {
        if tokens[base + i] != pat[i] {
            assert(views(tokens@).subrange(base as int, tokens@.len() as int)[i as int] != views(
                pat@,
            )[i as int]);
            return false;
        }
        i = i + 1;
    }
    assert(views(tokens@).subrange(base as int, tokens@.len() as int) =~= views(pat@));
    true
}

/// Highlighting state of every chip group after the tokens placed so far.
/// The rules come from the language pack; the longest rule whose tokens
/// end the sequence decides, and groups it does not mention stay visible.
pub fn evaluate_context(tokens: &[String], rules: &[ContextRule], all_groups: &[String]) -> (r: Vec<
    ChipGroupState,
>)
    ensures
        r@.len() == all_groups@.len(),
        forall|k: int|
            0 <= k < r@.len() ==> (#[trigger] r@[k]).group_name == all_groups@[k]
                && r@[k].is_highlighted == group_highlighted(
                views(tokens@),
                rules@,
                all_groups@[k]@,
            ),
{
    let ghost tv = views(tokens@);
    let mut best: Option<usize> = None;
    let mut best_len: usize = 0;
    let mut i: usize = 0;
    while i < rules.len()
        invariant
            i <= rules@.len(),
            tv == views(tokens@),
            best is Some ==> best->0 < i,
            best is None ==> best_len == 0,
            best is Some ==> best_len == rules@[best->0 as int].after_tokens@.len(),
            best is Some ==> rule_applies(tv, rules@[best->0 as int]),
            forall|j: int|
                0 <= j < i && rule_applies(tv, #[trigger] rules@[j]) ==> rules@[j].after_tokens@.len()
                    <= best_len,
            best is Some ==> forall|j: int|
                best->0 < j < i && rule_applies(tv, #[trigger] rules@[j])
                    ==> rules@[j].after_tokens@.len() < best_len,
            best is None ==> forall|j: int| 0 <= j < i ==> !rule_applies(tv, #[trigger] rules@[j]),
        decreases rules@.len() - i,
    {
        let rule_len = rules[i].after_tokens.len();
        let fires = tail_matches(tokens, rules[i].after_tokens.as_slice());
        assert(fires == rule_applies(tv, rules@[i as int]));
        let ghost old_best = best;
        let ghost old_len = best_len;
        if fires && rule_len >= best_len {
            best = Some(i);
            best_len = rule_len;
        }
        i = i + 1;
    }
    proof {
        match best {
            Some(b) => {
                assert(is_best_rule(tv, rules@, b as int));
                assert forall|j: int| is_best_rule(tv, rules@, j) implies j == b by {
                    lemma_best_rule_unique(tv, rules@, j, b as int);
                }
            },
            None => {
                assert forall|j: int| !is_best_rule(tv, rules@, j) by {}
            },
        }
    }
    let mut states: Vec<ChipGroupState> = Vec::new();
    let mut k: usize = 0;
    while k < all_groups.len()
        invariant
            k <= all_groups@.len(),
            tv == views(tokens@),
            states@.len() == k,
            match best {
                Some(b) => b < rules@.len() && is_best_rule(tv, rules@, b as int),
                None => forall|j: int| !is_best_rule(tv, rules@, j),
            },
            forall|j: int|
                0 <= j < k ==> (#[trigger] states@[j]).group_name == all_groups@[j]
                    && states@[j].is_highlighted == group_highlighted(
                    tv,
                    rules@,
                    all_groups@[j]@,
                ),
        decreases all_groups@.len() - k,
    {
        let g = &all_groups[k];
        let is_highlighted = match best {
            Some(b) => {
                let rule = &rules[b];
                proof {
                    assert forall|j: int| is_best_rule(tv, rules@, j) implies j == b by {
                        lemma_best_rule_unique(tv, rules@, j, b as int);
                    }
                }
                if contains_string(rule.highlight_groups.as_slice(), g) {
                    true
                } else if contains_string(rule.dim_groups.as_slice(), g) {
                    false
                } else {
                    true
                }
            },
            None => true,
        };
        states.push(ChipGroupState { group_name: g.clone(), is_highlighted });
        k = k + 1;
    }
    states
}

// ══════════════════════════════════════════════════════════════
// Helpers driven by the pack data
// ══════════════════════════════════════════════════════════════

/// The first challenge of the pack with the given id.
pub fn get_challenge_by_id<'a>(pack: &'a LanguagePack, id: &str) -> (r: Option<&'a Challenge>)
    ensures
        match r {
            Some(c) => exists|k: int|
                0 <= k < pack.challenges@.len() && *c == #[trigger] pack.challenges@[k]
                    && c.id@ == id@ && forall|j: int|
                    0 <= j < k ==> (#[trigger] pack.challenges@[j]).id@ != id@,
            None => forall|k: int|
                0 <= k < pack.challenges@.len() ==> (#[trigger] pack.challenges@[k]).id@ != id@,
        },
{
    let mut i: usize = 0;
    while i < pack.challenges.len()
        invariant
            i <= pack.challenges@.len(),
            forall|j: int| 0 <= j < i ==> (#[trigger] pack.challenges@[j]).id@ != id@,
        decreases pack.challenges@.len() - i,
    {
        if str_eq(pack.challenges[i].id.as_str(), id) {
            return Some(&pack.challenges[i]);
        }
        i = i + 1;
    }
    None
}

/// The challenges of one module, in pack order.
pub fn get_module_challenges<'a>(pack: &'a LanguagePack, module_id: u32) -> (r: Vec<&'a Challenge>)
    ensures
        r@.map_values(|c: &Challenge| *c) == pack.challenges@.filter(
            |c: Challenge| c.module == module_id,
        ),
{
    let ghost pred = |c: Challenge| c.module == module_id;
    let mut r: Vec<&Challenge> = Vec::new();
    let mut i: usize = 0;
    while i < pack.challenges.len()
        invariant
            i <= pack.challenges@.len(),
            pred == (|c: Challenge| c.module == module_id),
            r@.map_values(|c: &Challenge| *c) == pack.challenges@.take(i as int).filter(pred),
        decreases pack.challenges@.len() - i,
    {
        proof {
            assert(pack.challenges@.take(i + 1) =~= pack.challenges@.take(i as int).push(
                pack.challenges@[i as int],
            ));
            pack.challenges@.take(i as int).lemma_filter_push(pack.challenges@[i as int], pred);
        }
        let ghost before = r@.map_values(|c: &Challenge| *c);
        if pack.challenges[i].module == module_id {
            r.push(&pack.challenges[i]);
            assert(r@.map_values(|c: &Challenge| *c) =~= before.push(pack.challenges@[i as int]));
        } else {
            assert(r@.map_values(|c: &Challenge| *c) =~= before);
        }
        i = i + 1;
    }
    assert(pack.challenges@.take(pack.challenges@.len() as int) =~= pack.challenges@);
    r
}

/// The first id in `ids` that is not completed.
pub open spec fn first_incomplete(ids: Seq<String>, completed: Seq<Seq<char>>) -> Option<String>
    decreases ids.len(),
{
    if ids.len() == 0 {
        None
    } else if !completed.contains(ids[0]@) {
        Some(ids[0])
    } else {
        first_incomplete(ids.drop_first(), completed)
    }
}

/// The next challenge to play: in module order, the first incomplete
/// challenge of the first unlocked module that still has one.
pub open spec fn next_challenge(modules: Seq<ModuleInfo>, progress: LanguageProgress) -> Option<String>
    decreases modules.len(),
{
    if modules.len() == 0 {
        None
    } else if !progress.unlocked_modules@.contains(modules[0].id) {
        next_challenge(modules.drop_first(), progress)
    } else {
        match first_incomplete(modules[0].challenge_ids@, views(progress.completed_challenges@)) {
            Some(id) => Some(id),
            None => next_challenge(modules.drop_first(), progress),
        }
    }
}

/// Whether `x` occurs in `v`.
pub fn contains_u32(v: &[u32], x: u32) -> (r: bool)
    ensures
        r == v@.contains(x),
{
    let mut i: usize = 0;
    while i < v.len()
        invariant
            i <= v@.len(),
            forall|j: int| 0 <= j < i ==> v@[j] != x,
        decreases v@.len() - i,
    {
        if v[i] == x {
            return true;
        }
        i = i + 1;
    }
    false
}

/// First incomplete challenge id of one module.
fn first_incomplete_of(ids: &[String], completed: &[String]) -> (r: Option<String>)
    ensures
        r == first_incomplete(ids@, views(completed@)),
{
    let mut i: usize = 0;
    assert(ids@.skip(0) =~= ids@);
    while i < ids.len()
        invariant
            i <= ids@.len(),
            first_incomplete(ids@, views(completed@)) == first_incomplete(
                ids@.skip(i as int),
                views(completed@),
            ),
        decreases ids@.len() - i,
    {
        assert(ids@.skip(i as int)[0] == ids@[i as int]);
        assert(ids@.skip(i as int).drop_first() =~= ids@.skip(i + 1));
        if !contains_string(completed, &ids[i]) {
            return Some(ids[i].clone());
        }
        i = i + 1;
    }
    None
}

/// The id of the next challenge to play, if any remains.
pub fn get_next_challenge_id(pack: &LanguagePack, progress: &LanguageProgress) -> (r: Option<String>)
    ensures
        r == next_challenge(pack.modules@, *progress),
{
    let mut i: usize = 0;
    assert(pack.modules@.skip(0) =~= pack.modules@);
    while i < pack.modules.len()
        invariant
            i <= pack.modules@.len(),
            next_challenge(pack.modules@, *progress) == next_challenge(
                pack.modules@.skip(i as int),
                *progress,
            ),
        decreases pack.modules@.len() - i,
    {
        let module = &pack.modules[i];
        assert(pack.modules@.skip(i as int)[0] == pack.modules@[i as int]);
        assert(pack.modules@.skip(i as int).drop_first() =~= pack.modules@.skip(i + 1));
        if contains_u32(progress.unlocked_modules.as_slice(), module.id) {
            let found = first_incomplete_of(
                module.challenge_ids.as_slice(),
                progress.completed_challenges.as_slice(),
            );
            if found.is_some() {
                return found;
            }
        }
        i = i + 1;
    }
    None
}

/// Every challenge of the module has been completed.
pub open spec fn module_complete(module: ModuleInfo, progress: LanguageProgress) -> bool {
    forall|i: int|
        0 <= i < module.challenge_ids@.len() ==> views(progress.completed_challenges@).contains(
            (#[trigger] module.challenge_ids@[i])@,
        )
}

pub fn is_module_complete(module: &ModuleInfo, progress: &LanguageProgress) -> (r: bool)
    ensures
        r == module_complete(*module, *progress),
{
    let mut i: usize = 0;
    while i < module.challenge_ids.len()
        invariant
            i <= module.challenge_ids@.len(),
            forall|j: int|
                0 <= j < i ==> views(progress.completed_challenges@).contains(
                    (#[trigger] module.challenge_ids@[j])@,
                ),
        decreases module.challenge_ids@.len() - i,
    {
        if !contains_string(progress.completed_challenges.as_slice(), &module.challenge_ids[i]) {
            return false;
        }
        i = i + 1;
    }
    true
}

/// The first category of the pack whose tokens include `token`.
pub fn get_token_category<'a>(pack: &'a LanguagePack, token: &str) -> (r: Option<&'a TokenCategory>)
    ensures
        match r {
            Some(cat) => exists|k: int|
                0 <= k < pack.categories@.len() && *cat == #[trigger] pack.categories@[k]
                    && views(cat.tokens@).contains(token@) && forall|j: int|
                    0 <= j < k ==> !views((#[trigger] pack.categories@[j]).tokens@).contains(
                        token@,
                    ),
            None => forall|k: int|
                0 <= k < pack.categories@.len() ==> !views(
                    (#[trigger] pack.categories@[k]).tokens@,
                ).contains(token@),
        },
{
    let mut i: usize = 0;
    while i < pack.categories.len()
        invariant
            i <= pack.categories@.len(),
            forall|j: int|
                0 <= j < i ==> !views((#[trigger] pack.categories@[j]).tokens@).contains(token@),
        decreases pack.categories@.len() - i,
    {
        if contains_str(pack.categories[i].tokens.as_slice(), token) {
            return Some(&pack.categories[i]);
        }
        i = i + 1;
    }
    None
}

/// Experience awarded for an attempt: full on the first try, half afterwards.
pub fn xp_for_attempt(base_xp: u32, attempt_number: u32) -> (xp: u32)
    ensures
        xp == if attempt_number <= 1 { base_xp } else { base_xp / 2 },
{
    if attempt_number <= 1 {
        base_xp
    } else {
        base_xp / 2
    }
}

// ══════════════════════════════════════════════════════════════
// Laws
// ══════════════════════════════════════════════════════════════

/// Storing a pack under another id leaves what `id` finds unchanged.
proof fn lemma_insert_pack_other(
    ps: Seq<(Seq<char>, LanguagePack)>,
    other: Seq<char>,
    p: LanguagePack,
    id: Seq<char>,
)
    requires
        distinct_ids(ps),
        other != id,
    ensures
        pack_for(insert_pack(ps, other, p), id) == pack_for(ps, id),
{
    let r = insert_pack(ps, other, p);
    lemma_insert_pack_distinct(ps, other, p);
    if exists|i: int| 0 <= i < ps.len() && ps[i].0 == id {
        let k = choose|i: int| 0 <= i < ps.len() && ps[i].0 == id;
        assert(r[k] == ps[k]);
        assert(exists|i: int| 0 <= i < r.len() && r[i].0 == id);
        let j = choose|i: int| 0 <= i < r.len() && r[i].0 == id;
        assert(j == k);
    } else {
        assert forall|i: int| 0 <= i < r.len() implies r[i].0 != id by {
            if i < ps.len() {
                assert(r[i] == ps[i] || r[i].0 == other);
            }
        }
    }
}

/// Loading packs never stores two under one id.
proof fn lemma_loaded_distinct(input: Seq<(String, Result<LanguagePack, String>)>)
    ensures
        distinct_ids(loaded_packs(input)),
    decreases input.len(),
{
    if input.len() > 0 {
        lemma_loaded_distinct(input.drop_last());
        lemma_insert_pack_distinct(
            loaded_packs(input.drop_last()),
            input.last().0@,
            input.last().1->Ok_0,
        );
    }
}

/// After loading, `id` finds the pack given last under it, and nothing
/// when no pack was given under it: a later pack replaces an earlier one.
pub proof fn law_last_pack_wins(input: Seq<(String, Result<LanguagePack, String>)>, id: Seq<char>)
    ensures
        (forall|k: int| 0 <= k < input.len() ==> (#[trigger] input[k]).0@ != id) ==> pack_for(
            loaded_packs(input),
            id,
        ) is None,
        forall|k: int|
            0 <= k < input.len() && (#[trigger] input[k]).0@ == id && (forall|j: int|
                k < j < input.len() ==> input[j].0@ != id) ==> pack_for(loaded_packs(input), id)
                == Some(input[k].1->Ok_0),
    decreases input.len(),
{
    if input.len() > 0 {
        let d = input.drop_last();
        let l = input.len() - 1;
        law_last_pack_wins(d, id);
        lemma_loaded_distinct(d);
        let ps = loaded_packs(d);
        if input[l].0@ == id {
            lemma_insert_pack_distinct(ps, id, input[l].1->Ok_0);
            assert forall|k: int|
                0 <= k < input.len() && (#[trigger] input[k]).0@ == id && (forall|j: int|
                    k < j < input.len() ==> input[j].0@ != id) implies pack_for(loaded_packs(input), id)
                == Some(input[k].1->Ok_0) by {
                if k < l {
                    assert(input[l].0@ != id);
                }
            }
        } else {
            lemma_insert_pack_other(ps, input[l].0@, input[l].1->Ok_0, id);
            if forall|k: int| 0 <= k < input.len() ==> (#[trigger] input[k]).0@ != id {
                assert forall|k: int| 0 <= k < d.len() implies (#[trigger] d[k]).0@ != id by {
                    assert(d[k] == input[k]);
                }
            }
            assert forall|k: int|
                0 <= k < input.len() && (#[trigger] input[k]).0@ == id && (forall|j: int|
                    k < j < input.len() ==> input[j].0@ != id) implies pack_for(loaded_packs(input), id)
                == Some(input[k].1->Ok_0) by {
                assert(k < l);
                assert(d[k] == input[k]);
                assert forall|j: int| k < j < d.len() implies d[j].0@ != id by {
                    assert(d[j] == input[j]);
                }
            }
        }
    }
}

/// The canonical answer of a challenge, and each of its variants, is
/// accepted.
pub proof fn law_canonical_answers_accepted(c: Challenge)
    ensures
        answer_accepted(c.answer@, c),
        forall|k: int|
            0 <= k < c.answer_variants@.len() ==> answer_accepted(
                #[trigger] c.answer_variants@[k]@,
                c,
            ),
{
}

/// A diff is all matches exactly when the user's tokens spell the answer.
pub proof fn law_diff_all_match_iff_equal(d: Seq<TokenDiff>, user: Seq<String>, answer: Seq<String>)
    requires
        is_diff(d, user, answer),
    ensures
        (forall|i: int| 0 <= i < d.len() ==> (#[trigger] d[i]) is Match) <==> views(user) == views(
            answer,
        ),
{
    if forall|i: int| 0 <= i < d.len() ==> (#[trigger] d[i]) is Match {
        assert(user.len() == answer.len()) by {
            if user.len() > answer.len() {
                assert(d[answer.len() as int] is Match);
            } else if user.len() < answer.len() {
                assert(d[user.len() as int] is Match);
            }
        }
        assert forall|i: int| 0 <= i < user.len() implies views(user)[i] == views(answer)[i] by {
            assert(d[i] is Match);
        }
        assert(views(user) =~= views(answer));
    }
    if views(user) == views(answer) {
        assert(views(user).len() == user.len() && views(answer).len() == answer.len());
        assert forall|i: int| 0 <= i < d.len() implies (#[trigger] d[i]) is Match by {
            assert(d[i] == diff_at(user, answer, i));
            assert(views(user)[i] == views(answer)[i]);
            assert(views(user)[i] == user[i]@);
            assert(views(answer)[i] == answer[i]@);
        }
    }
}

/// With no token placed, every chip group is highlighted; the same holds
/// whenever no rule's tokens end the sequence.
pub proof fn law_no_rule_all_highlighted(tokens: Seq<Seq<char>>, rules: Seq<ContextRule>, g: Seq<char>)
    requires
        tokens.len() == 0 || forall|j: int| 0 <= j < rules.len() ==> !rule_applies(tokens, #[trigger] rules[j]),
    ensures
        group_highlighted(tokens, rules, g),
{
}

/// The next challenge is never a completed one, and it belongs to an
/// unlocked module.
pub proof fn law_next_challenge_is_open(modules: Seq<ModuleInfo>, progress: LanguageProgress)
    ensures
        next_challenge(modules, progress) matches Some(id) ==> {
            &&& !views(progress.completed_challenges@).contains(id@)
            &&& exists|k: int|
                0 <= k < modules.len() && progress.unlocked_modules@.contains(modules[k].id)
                    && (#[trigger] modules[k]).challenge_ids@.contains(id)
        },
    decreases modules.len(),
{
    if modules.len() > 0 {
        law_next_challenge_is_open(modules.drop_first(), progress);
        if progress.unlocked_modules@.contains(modules[0].id) {
            lemma_first_incomplete(modules[0].challenge_ids@, views(progress.completed_challenges@));
        }
        match next_challenge(modules, progress) {
            Some(id) => {
                if progress.unlocked_modules@.contains(modules[0].id) && first_incomplete(
                    modules[0].challenge_ids@,
                    views(progress.completed_challenges@),
                ) is Some {
                    assert(modules[0].challenge_ids@.contains(id));
                } else {
                    let k = choose|k: int|
                        0 <= k < modules.drop_first().len() && progress.unlocked_modules@.contains(
                            modules.drop_first()[k].id,
                        ) && (#[trigger] modules.drop_first()[k]).challenge_ids@.contains(id);
                    assert(modules[k + 1] == modules.drop_first()[k]);
                }
            },
            None => {},
        }
    }
}

/// What `first_incomplete` finds is one of the ids and not completed.
proof fn lemma_first_incomplete(ids: Seq<String>, completed: Seq<Seq<char>>)
    ensures
        first_incomplete(ids, completed) matches Some(id) ==> ids.contains(id) && !completed.contains(
            id@,
        ),
    decreases ids.len(),
{
    if ids.len() > 0 {
        lemma_first_incomplete(ids.drop_first(), completed);
        if completed.contains(ids[0]@) {
            match first_incomplete(ids, completed) {
                Some(id) => {
                    let j = choose|j: int| 0 <= j < ids.drop_first().len() && ids.drop_first()[j] == id;
                    assert(ids[j + 1] == id);
                },
                None => {},
            }
        } else {
            assert(ids[0] == ids[0]);
            assert(ids.contains(ids[0]));
        }
    }
}


/// Every id of `ids` is completed.
pub open spec fn all_completed(ids: Seq<String>, done: Seq<Seq<char>>) -> bool {
    forall|j: int| 0 <= j < ids.len() ==> done.contains(#[trigger] ids[j]@)
}

/// Challenge `j` of module `k` is where play resumes: module `k` is
/// unlocked, the challenge is not completed, every earlier challenge of the
/// module is, and every earlier unlocked module is complete.
pub open spec fn earliest_open(modules: Seq<ModuleInfo>, progress: LanguageProgress, k: int, j: int) -> bool {
    let done = views(progress.completed_challenges@);
    &&& 0 <= k < modules.len()
    &&& 0 <= j < modules[k].challenge_ids@.len()
    &&& progress.unlocked_modules@.contains(modules[k].id)
    &&& !done.contains(modules[k].challenge_ids@[j]@)
    &&& all_completed(modules[k].challenge_ids@.take(j), done)
    &&& forall|k2: int|
        0 <= k2 < k && progress.unlocked_modules@.contains(modules[k2].id) ==> all_completed(
            (#[trigger] modules[k2]).challenge_ids@,
            done,
        )
}

proof fn lemma_first_incomplete_at(ids: Seq<String>, done: Seq<Seq<char>>)
    ensures
        first_incomplete(ids, done) matches Some(id) ==> exists|j: int|
            0 <= j < ids.len() && #[trigger] ids[j] == id && !done.contains(id@) && all_completed(
                ids.take(j),
                done,
            ),
        first_incomplete(ids, done) is None ==> all_completed(ids, done),
    decreases ids.len(),
{
    if ids.len() > 0 {
        let t = ids.drop_first();
        lemma_first_incomplete_at(t, done);
        if !done.contains(ids[0]@) {
            assert(ids.take(0) =~= Seq::<String>::empty());
            assert(ids[0] == ids[0]);
        } else {
            match first_incomplete(t, done) {
                Some(id) => {
                    let j = choose|j: int|
                        0 <= j < t.len() && #[trigger] t[j] == id && !done.contains(id@) && all_completed(
                            t.take(j),
                            done,
                        );
                    assert(ids[j + 1] == id);
                    assert forall|i: int| 0 <= i < ids.take(j + 1).len() implies done.contains(
                        #[trigger] ids.take(j + 1)[i]@,
                    ) by {
                        if i > 0 {
                            assert(ids.take(j + 1)[i] == t.take(j)[i - 1]);
                        }
                    }
                },
                None => {
                    assert forall|i: int| 0 <= i < ids.len() implies done.contains(#[trigger] ids[i]@) by {
                        if i > 0 {
                            assert(ids[i] == t[i - 1]);
                        }
                    }
                },
            }
        }
    }
}

/// The next challenge is where play resumes: in module order, the first
/// uncompleted challenge of the first unlocked module that has one; there
/// is none exactly when every unlocked module is complete.
pub proof fn law_next_challenge_is_earliest(modules: Seq<ModuleInfo>, progress: LanguageProgress)
    ensures
        next_challenge(modules, progress) matches Some(id) ==> exists|k: int, j: int|
            #[trigger] earliest_open(modules, progress, k, j) && modules[k].challenge_ids@[j] == id,
        next_challenge(modules, progress) is None ==> forall|k: int|
            0 <= k < modules.len() && progress.unlocked_modules@.contains(modules[k].id) ==> all_completed(
                (#[trigger] modules[k]).challenge_ids@,
                views(progress.completed_challenges@),
            ),
    decreases modules.len(),
{
    let done = views(progress.completed_challenges@);
    if modules.len() > 0 {
        let rest = modules.drop_first();
        law_next_challenge_is_earliest(rest, progress);
        let open0 = progress.unlocked_modules@.contains(modules[0].id);
        if open0 {
            lemma_first_incomplete_at(modules[0].challenge_ids@, done);
        }
        if open0 && first_incomplete(modules[0].challenge_ids@, done) is Some {
            let id = first_incomplete(modules[0].challenge_ids@, done)->Some_0;
            let j = choose|j: int|
                0 <= j < modules[0].challenge_ids@.len() && #[trigger] modules[0].challenge_ids@[j] == id
                    && !done.contains(id@) && all_completed(modules[0].challenge_ids@.take(j), done);
            assert(earliest_open(modules, progress, 0, j));
        } else {
            // Module 0 is locked or complete: the answer is that of the rest.
            assert(!open0 || all_completed(modules[0].challenge_ids@, done));
            match next_challenge(rest, progress) {
                Some(id) => {
                    let (k, j) = choose|k: int, j: int|
                        #[trigger] earliest_open(rest, progress, k, j) && rest[k].challenge_ids@[j] == id;
                    assert(rest[k] == modules[k + 1]);
                    assert forall|k2: int|
                        0 <= k2 < k + 1 && progress.unlocked_modules@.contains(modules[k2].id) implies all_completed(
                        (#[trigger] modules[k2]).challenge_ids@,
                        done,
                    ) by {
                        if k2 > 0 {
                            assert(rest[k2 - 1] == modules[k2]);
                        }
                    }
                    assert(earliest_open(modules, progress, k + 1, j));
                },
                None => {
                    assert forall|k: int|
                        0 <= k < modules.len() && progress.unlocked_modules@.contains(modules[k].id) implies all_completed(
                        (#[trigger] modules[k]).challenge_ids@,
                        done,
                    ) by {
                        if k > 0 {
                            assert(rest[k - 1] == modules[k]);
                        }
                    }
                },
            }
        }
    }
}

/// A group shows unless the rule in force dims it: with no rule in force
/// every group shows; under a rule, a group it highlights shows, a group
/// it does not mention shows, and a group it dims without highlighting is
/// hidden.
pub proof fn law_group_visibility(tokens: Seq<Seq<char>>, rules: Seq<ContextRule>, g: Seq<char>)
    ensures
        (forall|i: int| !#[trigger] is_best_rule(tokens, rules, i)) ==> group_highlighted(tokens, rules, g),
        forall|i: int|
            #[trigger] is_best_rule(tokens, rules, i) ==> {
                &&& views(rules[i].highlight_groups@).contains(g) ==> group_highlighted(tokens, rules, g)
                &&& !views(rules[i].dim_groups@).contains(g) ==> group_highlighted(tokens, rules, g)
                &&& views(rules[i].dim_groups@).contains(g) && !views(rules[i].highlight_groups@).contains(g)
                    ==> !group_highlighted(tokens, rules, g)
            },
{
    assert forall|i: int| #[trigger] is_best_rule(tokens, rules, i) implies {
        &&& views(rules[i].highlight_groups@).contains(g) ==> group_highlighted(tokens, rules, g)
        &&& !views(rules[i].dim_groups@).contains(g) ==> group_highlighted(tokens, rules, g)
        &&& views(rules[i].dim_groups@).contains(g) && !views(rules[i].highlight_groups@).contains(g)
            ==> !group_highlighted(tokens, rules, g)
    } by {
        let c = choose|c: int| is_best_rule(tokens, rules, c);
        lemma_best_rule_unique(tokens, rules, i, c);
    }
}

} // verus!
