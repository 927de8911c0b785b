//! Challenge validation pipeline: language-agnostic static checks of every
//! challenge, with per-language compiler adapters that rebuild a whole
//! program from a challenge's answer fragment.
use vstd::prelude::*;
use crate::models::{Challenge, ChipGroup, FragmentType, LanguagePack};
use crate::text::{
    push_decimal, contains_string, index_of, is_ws, strip_cr, all_ws, lemma_trim_empty_iff_all_ws, chars_of, contains_chars, contains_sub, decimal, decimal_string, is_blank, join, join_char_lines,
    join_strings, lines_chars, lines_of, owned, replace_all, replace_chars, starts_with,
    starts_with_chars, str_eq, trim, trim_chars, views,
};

verus! {

broadcast use vstd::string::group_string_axioms;

// ══════════════════════════════════════════════════════════════
// Compiler Adapter Trait
// ══════════════════════════════════════════════════════════════

/// What a program that trims to nothing is reported as.
pub open spec fn empty_program_message() -> Seq<char> {
    "Wrapped program is empty"@
}

/// One implementation per language; the orchestrator calls it without
/// knowing which language it works with.
pub trait CompilerAdapter: Send + Sync {
    /// The language id the adapter reports. An implementation defines it
    /// to state what `language_id` returns.
    open spec fn language(&self) -> Seq<char> {
        Seq::empty()
    }

    /// The program the adapter rebuilds from a fragment of a kind with a
    /// scaffold; none when it has no template for that kind. An
    /// implementation defines it to state what `wrap_fragment` returns.
    open spec fn wrapped(&self, fragment: Seq<char>, fragment_type: FragmentType, scaffold: Seq<char>) -> Option<Seq<char>> {
        None
    }

    /// The adapter's verdict on the structure of a rebuilt program, with
    /// its message when it rejects it: by default, only a blank program is
    /// rejected.
    open spec fn structure(&self, program: Seq<char>) -> Result<(), Seq<char>> {
        nonblank_structure(program)
    }

    /// Language this adapter handles (e.g. "rust", "go", "python").
    fn language_id(&self) -> (r: &str)
        ensures
            r@ == self.language(),
    ;

    /// Shell command to compile and run a source file; `{SRC}` is the
    /// source path and `{OUT}` the binary path.
    fn run_command(&self) -> &str;

    /// Seconds before a compilation or run is stopped.
    fn timeout_seconds(&self) -> u32;

    /// Source file extension (e.g. "rs").
    fn file_extension(&self) -> &str;

    /// Extra compiler flags; none by default.
    fn compiler_flags(&self) -> (r: Vec<String>)
        default_ensures
            r@.len() == 0,
    {
        Vec::new()
    }

    /// Rebuilds a full program from a challenge fragment, using the
    /// scaffold for setup code.
    fn wrap_fragment(&self, fragment: &str, fragment_type: &FragmentType, scaffold: &str) -> (r:
        Option<String>)
        ensures
            match r {
                Some(p) => self.wrapped(fragment@, *fragment_type, scaffold@) == Some(p@),
                None => self.wrapped(fragment@, *fragment_type, scaffold@) is None,
            },
    ;

    /// Whether a rebuilt program looks structurally valid. An adapter
    /// without a check of its own can answer with
    /// `nonblank_program_structure`, which only asks for a non-blank program.
    fn validate_program_structure(&self, program: &str) -> (r: Result<(), String>)
        ensures
            match self.structure(program@) {
                Ok(()) => r is Ok,
                Err(m) => r is Err && r->Err_0@ == m,
            },
    ;
}

/// The structural check that only asks for a non-blank program.
pub open spec fn nonblank_structure(program: Seq<char>) -> Result<(), Seq<char>> {
    if trim(program).len() == 0 {
        Err(empty_program_message())
    } else {
        Ok(())
    }
}

/// The basic structural check: a program that trims to nothing is
/// rejected as empty; any other passes.
pub fn nonblank_program_structure(program: &str) -> (r: Result<(), String>)
    ensures
        match nonblank_structure(program@) {
            Ok(()) => r is Ok,
            Err(m) => r is Err && r->Err_0@ == m,
        },
{
    if is_blank(program) {
        return Err(owned("Wrapped program is empty"));
    }
    Ok(())
}

// ══════════════════════════════════════════════════════════════
// Adapter Registry
// ══════════════════════════════════════════════════════════════

/// Adapters keyed by language id (ids are distinct), in registration order.
pub struct AdapterRegistry {
    list: AdapterList,
}

/// The registered adapters as a chain of (id, adapter) entries.
enum AdapterList {
    Empty,
    Entry(String, Box<dyn CompilerAdapter>, Box<AdapterList>),
}

/// A chain with one more entry in front. Built through a call so that the
/// new value is known to be well typed, which its unfolding needs.
fn entry(id: String, adapter: Box<dyn CompilerAdapter>, rest: AdapterList) -> (r: AdapterList)
    ensures
        r == AdapterList::Entry(id, adapter, Box::new(rest)),
{
    AdapterList::Entry(id, adapter, Box::new(rest))
}

/// The ids of a chain of adapters, in order.
spec fn list_ids(l: AdapterList) -> Seq<Seq<char>>
    decreases l,
{
    match l {
        AdapterList::Empty => seq![],
        AdapterList::Entry(id, _, rest) => seq![id@] + list_ids(*rest),
    }
}

/// The first adapter stored under `id`.
spec fn list_adapter(l: AdapterList, id: Seq<char>) -> Option<Box<dyn CompilerAdapter>>
    decreases l,
{
    match l {
        AdapterList::Empty => None,
        AdapterList::Entry(k, a, rest) => if k@ == id {
            Some(a)
        } else {
            list_adapter(*rest, id)
        },
    }
}

/// The ids after registering an adapter for `id`: unchanged when `id` is
/// already registered (its adapter is replaced), else `id` appended.
pub open spec fn insert_id(ids: Seq<Seq<char>>, id: Seq<char>) -> Seq<Seq<char>> {
    if ids.contains(id) {
        ids
    } else {
        ids.push(id)
    }
}

pub open spec fn distinct(ids: Seq<Seq<char>>) -> bool {
    forall|i: int, j: int| 0 <= i < ids.len() && 0 <= j < ids.len() && i != j ==> ids[i] != ids[j]
}

proof fn lemma_insert_id_distinct(ids: Seq<Seq<char>>, id: Seq<char>)
    requires
        distinct(ids),
    ensures
        distinct(insert_id(ids, id)),
{
    if !ids.contains(id) {
        let after = ids.push(id);
        assert forall|a: int, b: int|
            0 <= a < after.len() && 0 <= b < after.len() && a != b implies after[a] != after[b] by {
            if a < ids.len() && b < ids.len() {
            } else if a < ids.len() {
                assert(ids.contains(ids[a]));
            } else if b < ids.len() {
                assert(ids.contains(ids[b]));
            }
        }
    }
}

/// Stores `adapter` under `id`: replaces the entry of that id, or appends.
fn list_insert(l: AdapterList, id: String, adapter: Box<dyn CompilerAdapter>) -> (r: AdapterList)
    ensures
        list_ids(r) == insert_id(list_ids(l), id@),
    decreases l,
{
    match l {
        AdapterList::Empty => {
            let ghost idv = id@;
            assert(list_ids(AdapterList::Empty) =~= Seq::<Seq<char>>::empty());
            let r = entry(id, adapter, AdapterList::Empty);
            assert(list_ids(r) =~= seq![idv]);
            r
        },
        AdapterList::Entry(k, b, rest) => {
            let ghost rest_ids = list_ids(*rest);
            assert(list_ids(l) == seq![k@] + rest_ids);
            if k == id {
                assert(list_ids(l)[0] == id@);
                entry(id, adapter, *rest)
            } else {
                let ghost idv = id@;
                let new_rest = list_insert(*rest, id, adapter);
                let ghost kv = k@;
                let ghost new_ids = list_ids(new_rest);
                let r = entry(k, b, new_rest);
                proof {
                    assert(list_ids(l).contains(idv) <==> rest_ids.contains(idv)) by {
                        if list_ids(l).contains(idv) {
                            let j = choose|j: int| 0 <= j < list_ids(l).len() && list_ids(l)[j] == idv;
                            assert(j > 0);
                            assert(rest_ids[j - 1] == idv);
                        }
                        if rest_ids.contains(idv) {
                            let j = choose|j: int| 0 <= j < rest_ids.len() && rest_ids[j] == idv;
                            assert(list_ids(l)[j + 1] == idv);
                        }
                    }
                    assert(list_ids(r) == seq![kv] + new_ids);
                    assert(list_ids(r) =~= insert_id(list_ids(l), idv));
                }
                r
            }
        },
    }
}

fn list_get<'a>(l: &'a AdapterList, id: &str) -> (r: Option<&'a dyn CompilerAdapter>)
    ensures
        r is Some <==> list_ids(*l).contains(id@),
        r matches Some(a) ==> list_adapter(*l, id@) matches Some(b) && &*b == a,
    decreases l,
{
    match l {
        AdapterList::Empty => None,
        AdapterList::Entry(k, a, rest) => {
            assert(list_ids(*l) =~= seq![k@] + list_ids(**rest));
            if str_eq(k.as_str(), id) {
                assert(list_ids(*l)[0] == id@);
                Some(&**a)
            } else {
                let r = list_get(rest, id);
                proof {
                    if list_ids(**rest).contains(id@) {
                        let j = choose|j: int| 0 <= j < list_ids(**rest).len() && list_ids(**rest)[j] == id@;
                        assert(list_ids(*l)[j + 1] == id@);
                    }
                    if list_ids(*l).contains(id@) {
                        let j = choose|j: int| 0 <= j < list_ids(*l).len() && list_ids(*l)[j] == id@;
                        assert(j > 0);
                        assert(list_ids(**rest)[j - 1] == id@);
                    }
                }
                r
            }
        },
    }
}

fn list_collect<'a>(l: &'a AdapterList, out: &mut Vec<&'a str>)
    ensures
        final(out)@.map_values(|s: &str| s@) == old(out)@.map_values(|s: &str| s@) + list_ids(*l),
    decreases l,
{
    match l {
        AdapterList::Empty => {
            assert(old(out)@.map_values(|s: &str| s@) + list_ids(*l) =~= old(out)@.map_values(
                |s: &str| s@,
            ));
        },
        AdapterList::Entry(k, _, rest) => {
            let ghost start = out@.map_values(|s: &str| s@);
            let name = k.as_str();
            out.push(name);
            assert(out@.map_values(|s: &str| s@) =~= start.push(k@));
            list_collect(rest, out);
            assert(start.push(k@) + list_ids(**rest) =~= start + list_ids(*l));
        },
    }
}

impl View for AdapterRegistry {
    type V = Seq<Seq<char>>;

    /// The registered language ids.
    closed spec fn view(&self) -> Seq<Seq<char>> {
        list_ids(self.list)
    }
}

impl AdapterRegistry {
    #[verifier::type_invariant]
    spec fn inv(&self) -> bool {
        distinct(list_ids(self.list))
    }

    /// The program that the adapter registered for `id` rebuilds from a
    /// fragment of a kind with a scaffold (meaningful when one is
    /// registered).
    pub closed spec fn wraps(&self, id: Seq<char>, fragment: Seq<char>, ft: FragmentType, scaffold: Seq<char>) -> Option<Seq<char>> {
        (&*list_adapter(self.list, id)->Some_0).wrapped(fragment, ft, scaffold)
    }

    /// The structural verdict of the adapter registered for `id` on a
    /// program (meaningful when one is registered).
    pub closed spec fn checks(&self, id: Seq<char>, program: Seq<char>) -> Result<(), Seq<char>> {
        (&*list_adapter(self.list, id)->Some_0).structure(program)
    }

    /// An empty registry.
    pub fn new() -> (r: Self)
        ensures
            r@.len() == 0,
    {
        AdapterRegistry { list: AdapterList::Empty }
    }

    /// Registers an adapter under the language id it reports, replacing any
    /// adapter registered for that id.
    pub fn register(&mut self, adapter: Box<dyn CompilerAdapter>)
        ensures
            final(self)@ == insert_id(old(self)@, adapter.language()),
            distinct(final(self)@),
    {
        proof {
            use_type_invariant(&*self);
        }
        let ghost before = self@;
        let id = owned(adapter.language_id());
        let ghost idv = id@;
        let mut list = AdapterList::Empty;
        std::mem::swap(&mut list, &mut self.list);
        let inserted = list_insert(list, id, adapter);
        proof {
            lemma_insert_id_distinct(before, idv);
        }
        self.list = inserted;
        assert(self@ == insert_id(before, idv));
    }

    /// The adapter registered for a language, if any: the one that `wraps`
    /// and `checks` describe.
    pub fn get(&self, language_id: &str) -> (r: Option<&dyn CompilerAdapter>)
        ensures
            r is Some <==> self@.contains(language_id@),
            r matches Some(a) ==> (forall|f: Seq<char>, ft: FragmentType, sc: Seq<char>|
                #[trigger] a.wrapped(f, ft, sc) == self.wraps(language_id@, f, ft, sc)) && (forall|
                p: Seq<char>,
            | #[trigger] a.structure(p) == self.checks(language_id@, p)),
    {
        let r = list_get(&self.list, language_id);
        proof {
            if let Some(a) = r {
                let b = list_adapter(self.list, language_id@)->Some_0;
                assert(&*b == a);
                assert forall|f: Seq<char>, ft: FragmentType, sc: Seq<char>|
                    #[trigger] a.wrapped(f, ft, sc) == self.wraps(language_id@, f, ft, sc) by {}
                assert forall|p: Seq<char>| #[trigger] a.structure(p) == self.checks(language_id@, p) by {}
            }
        }
        r
    }

    /// The registered language ids, in registration order; no id twice.
    pub fn languages(&self) -> (r: Vec<&str>)
        ensures
            r@.map_values(|s: &str| s@) == self@,
            distinct(self@),
    {
        proof {
            use_type_invariant(self);
        }
        let mut out: Vec<&str> = Vec::new();
        list_collect(&self.list, &mut out);
        assert(out@.map_values(|s: &str| s@) =~= self@);
        out
    }

    /// The registry of every built-in adapter: today, Rust's.
    pub fn default_registry() -> (r: Self)
        ensures
            r@ == seq!["rust"@],
    {
        let adapter = RustAdapter::new();
        let id = owned(adapter.language_id());
        let boxed: Box<dyn CompilerAdapter> = Box::new(adapter);
        let ghost idv = id@;
        assert(list_ids(AdapterList::Empty) =~= Seq::<Seq<char>>::empty());
        let list = entry(id, boxed, AdapterList::Empty);
        assert(idv == "rust"@);
        assert(list_ids(list) =~= seq!["rust"@]);
        AdapterRegistry { list }
    }
}

// ══════════════════════════════════════════════════════════════
// Rust Adapter
// ══════════════════════════════════════════════════════════════

/// The program template that a Rust fragment of each kind is placed in.
pub open spec fn rust_template(ft: FragmentType) -> Seq<char> {
    match ft {
        FragmentType::Expression => "{SCAFFOLD_OUTER}\nfn main() { {SCAFFOLD_INNER}\nlet _ = {FRAGMENT}; }"@,
        FragmentType::Statement => "{SCAFFOLD_OUTER}\nfn main() { {SCAFFOLD_INNER}\n{FRAGMENT} }"@,
        FragmentType::FnDef => "{SCAFFOLD}\n{FRAGMENT}\nfn main() {}"@,
        FragmentType::TypeDef => "{SCAFFOLD}\n{FRAGMENT}\nfn main() {}"@,
        FragmentType::Program => "{SCAFFOLD}\n{FRAGMENT}"@,
    }
}

/// A scaffold line that belongs before `fn main` (an item), judged by how
/// its trimmed text starts.
pub open spec fn is_module_level(line: Seq<char>) -> bool {
    let t = trim(line);
    ||| starts_with(t, "use "@)
    ||| starts_with(t, "struct "@)
    ||| starts_with(t, "enum "@)
    ||| starts_with(t, "fn "@)
    ||| starts_with(t, "trait "@)
    ||| starts_with(t, "impl "@)
    ||| starts_with(t, "type "@)
    ||| starts_with(t, "const "@)
    ||| starts_with(t, "static "@)
    ||| starts_with(t, "mod "@)
    ||| starts_with(t, "pub "@)
    ||| starts_with(t, "extern "@)
    ||| starts_with(t, "#["@)
}

pub open spec fn is_blank_line(line: Seq<char>) -> bool {
    trim(line).len() == 0
}

/// The scaffold lines that go before `fn main`.
pub open spec fn outer_lines(scaffold: Seq<char>) -> Seq<Seq<char>> {
    lines_of(scaffold).filter(|l: Seq<char>| !is_blank_line(l) && is_module_level(l))
}

/// The scaffold lines that go inside `fn main`.
pub open spec fn inner_lines(scaffold: Seq<char>) -> Seq<Seq<char>> {
    lines_of(scaffold).filter(|l: Seq<char>| !is_blank_line(l) && !is_module_level(l))
}

/// A program with its blank lines removed.
pub open spec fn without_blank_lines(program: Seq<char>) -> Seq<char> {
    join(lines_of(program).filter(|l: Seq<char>| !is_blank_line(l)), "\n"@)
}

/// The program the Rust adapter builds for a fragment.
pub open spec fn rust_wrap(fragment: Seq<char>, ft: FragmentType, scaffold: Seq<char>) -> Seq<char> {
    let t = rust_template(ft);
    let program = if ft == FragmentType::Statement || ft == FragmentType::Expression {
        replace_all(
            replace_all(
                replace_all(t, "{SCAFFOLD_OUTER}"@, join(outer_lines(scaffold), "\n"@)),
                "{SCAFFOLD_INNER}"@,
                join(inner_lines(scaffold), "\n"@),
            ),
            "{FRAGMENT}"@,
            fragment,
        )
    } else {
        replace_all(replace_all(t, "{SCAFFOLD}"@, scaffold), "{FRAGMENT}"@, fragment)
    };
    without_blank_lines(program)
}

/// The structural verdict on a rebuilt Rust program.
pub open spec fn rust_structure(program: Seq<char>) -> Result<(), Seq<char>> {
    if trim(program).len() == 0 {
        Err(empty_program_message())
    } else if !contains_sub(program, "fn main"@) {
        Err("Rust program missing fn main"@)
    } else {
        Ok(())
    }
}

/// Every kind of fragment has an entry.
pub open spec fn covers_all_kinds(w: Seq<(FragmentType, String)>) -> bool {
    &&& w.len() == 5
    &&& w[0].0 == FragmentType::Expression
    &&& w[1].0 == FragmentType::Statement
    &&& w[2].0 == FragmentType::FnDef
    &&& w[3].0 == FragmentType::TypeDef
    &&& w[4].0 == FragmentType::Program
}

pub struct RustAdapter {
    wrappers: Vec<(FragmentType, String)>,
}

impl RustAdapter {
    #[verifier::type_invariant]
    spec fn inv(&self) -> bool {
        &&& forall|i: int|
            0 <= i < self.wrappers@.len() ==> (#[trigger] self.wrappers@[i]).1@ == rust_template(
                self.wrappers@[i].0,
            )
        &&& covers_all_kinds(self.wrappers@)
    }

    /// The Rust adapter, with a template for every kind of fragment.
    pub fn new() -> (r: Self) {
        let mut wrappers: Vec<(FragmentType, String)> = Vec::new();
        wrappers.push(
            (
                FragmentType::Expression,
                owned("{SCAFFOLD_OUTER}\nfn main() { {SCAFFOLD_INNER}\nlet _ = {FRAGMENT}; }"),
            ),
        );
        wrappers.push(
            (
                FragmentType::Statement,
                owned("{SCAFFOLD_OUTER}\nfn main() { {SCAFFOLD_INNER}\n{FRAGMENT} }"),
            ),
        );
        wrappers.push((FragmentType::FnDef, owned("{SCAFFOLD}\n{FRAGMENT}\nfn main() {}")));
        wrappers.push((FragmentType::TypeDef, owned("{SCAFFOLD}\n{FRAGMENT}\nfn main() {}")));
        wrappers.push((FragmentType::Program, owned("{SCAFFOLD}\n{FRAGMENT}")));
        Self { wrappers }
    }

    /// Splits a scaffold into its item lines (before `fn main`) and its
    /// statement lines (inside `fn main`), each joined with newlines; blank
    /// lines are dropped.
    pub fn split_scaffold(scaffold: &str) -> (r: (String, String))
        ensures
            r.0@ == join(outer_lines(scaffold@), "\n"@),
            r.1@ == join(inner_lines(scaffold@), "\n"@),
    {
        let prefixes: Vec<Vec<char>> = module_level_prefixes();
        let chars = chars_of(scaffold);
        let lines = lines_chars(chars.as_slice());
        let ghost ls = lines_of(scaffold@);
        let ghost outer_pred = |l: Seq<char>| !is_blank_line(l) && is_module_level(l);
        let ghost inner_pred = |l: Seq<char>| !is_blank_line(l) && !is_module_level(l);
        let mut outer: Vec<Vec<char>> = Vec::new();
        let mut inner: Vec<Vec<char>> = Vec::new();
        let mut i: usize = 0;
        while i < lines.len()
            invariant
                i <= lines@.len(),
                ls == lines_of(scaffold@),
                lines@.len() == ls.len(),
                forall|k: int| 0 <= k < lines@.len() ==> #[trigger] lines@[k]@ == ls[k],
                prefixes_ok(prefixes@),
                outer_pred == (|l: Seq<char>| !is_blank_line(l) && is_module_level(l)),
                inner_pred == (|l: Seq<char>| !is_blank_line(l) && !is_module_level(l)),
                outer@.map_values(|v: Vec<char>| v@) == ls.take(i as int).filter(outer_pred),
                inner@.map_values(|v: Vec<char>| v@) == ls.take(i as int).filter(inner_pred),
            decreases lines@.len() - i,
        {
            let line = &lines[i];
            let trimmed = trim_chars(line.as_slice());
            proof {
                assert(ls.take(i + 1) =~= ls.take(i as int).push(ls[i as int]));
                ls.take(i as int).lemma_filter_push(ls[i as int], outer_pred);
                ls.take(i as int).lemma_filter_push(ls[i as int], inner_pred);
            }
            let ghost before_outer = outer@.map_values(|v: Vec<char>| v@);
            let ghost before_inner = inner@.map_values(|v: Vec<char>| v@);
            if trimmed.len() > 0 {
                let item = starts_with_any(trimmed.as_slice(), &prefixes);
                assert(item == is_module_level(ls[i as int]));
                if item {
                    outer.push(line.clone());
                } else {
                    inner.push(line.clone());
                }
            }
            assert(outer@.map_values(|v: Vec<char>| v@) =~= ls.take(i + 1).filter(outer_pred));
            assert(inner@.map_values(|v: Vec<char>| v@) =~= ls.take(i + 1).filter(inner_pred));
            i = i + 1;
        }
        assert(ls.take(lines@.len() as int) =~= ls);
        (join_char_lines(&outer, "\n"), join_char_lines(&inner, "\n"))
    }

    /// A program without its blank (empty or whitespace-only) lines.
    pub fn clean_empty_lines(program: &str) -> (r: String)
        ensures
            r@ == without_blank_lines(program@),
    {
        let chars = chars_of(program);
        let lines = lines_chars(chars.as_slice());
        let ghost ls = lines_of(program@);
        let ghost pred = |l: Seq<char>| !is_blank_line(l);
        let mut kept: Vec<Vec<char>> = Vec::new();
        let mut i: usize = 0;
        while i < lines.len()
            invariant
                i <= lines@.len(),
                ls == lines_of(program@),
                lines@.len() == ls.len(),
                forall|k: int| 0 <= k < lines@.len() ==> #[trigger] lines@[k]@ == ls[k],
                pred == (|l: Seq<char>| !is_blank_line(l)),
                kept@.map_values(|v: Vec<char>| v@) == ls.take(i as int).filter(pred),
            decreases lines@.len() - i,
        {
            let trimmed = trim_chars(lines[i].as_slice());
            proof {
                assert(ls.take(i + 1) =~= ls.take(i as int).push(ls[i as int]));
                ls.take(i as int).lemma_filter_push(ls[i as int], pred);
            }
            if trimmed.len() > 0 {
                kept.push(lines[i].clone());
            }
            assert(kept@.map_values(|v: Vec<char>| v@) =~= ls.take(i + 1).filter(pred));
            i = i + 1;
        }
        assert(ls.take(lines@.len() as int) =~= ls);
        join_char_lines(&kept, "\n")
    }

    fn template(&self, fragment_type: &FragmentType) -> (r: &String)
        ensures
            r@ == rust_template(*fragment_type),
    {
        proof {
            use_type_invariant(self);
        }
        let mut i: usize = 0;
        while i < self.wrappers.len()
            invariant
                i <= self.wrappers@.len(),
                forall|j: int| 0 <= j < i ==> self.wrappers@[j].0 != *fragment_type,
                forall|j: int|
                    0 <= j < self.wrappers@.len() ==> (#[trigger] self.wrappers@[j]).1@
                        == rust_template(self.wrappers@[j].0),
                covers_all_kinds(self.wrappers@),
            decreases self.wrappers@.len() - i,
        {
            if self.wrappers[i].0 == *fragment_type {
                return &self.wrappers[i].1;
            }
            i = i + 1;
        }
        assert(false);
        &self.wrappers[0].1
    }
}

/// The prefixes that mark an item line, as character sequences.
pub open spec fn prefixes_ok(p: Seq<Vec<char>>) -> bool {
    &&& p.len() == 13
    &&& p[0]@ == "use "@
    &&& p[1]@ == "struct "@
    &&& p[2]@ == "enum "@
    &&& p[3]@ == "fn "@
    &&& p[4]@ == "trait "@
    &&& p[5]@ == "impl "@
    &&& p[6]@ == "type "@
    &&& p[7]@ == "const "@
    &&& p[8]@ == "static "@
    &&& p[9]@ == "mod "@
    &&& p[10]@ == "pub "@
    &&& p[11]@ == "extern "@
    &&& p[12]@ == "#["@
}

fn module_level_prefixes() -> (p: Vec<Vec<char>>)
    ensures
        prefixes_ok(p@),
{
    let mut p: Vec<Vec<char>> = Vec::new();
    p.push(chars_of("use "));
    p.push(chars_of("struct "));
    p.push(chars_of("enum "));
    p.push(chars_of("fn "));
    p.push(chars_of("trait "));
    p.push(chars_of("impl "));
    p.push(chars_of("type "));
    p.push(chars_of("const "));
    p.push(chars_of("static "));
    p.push(chars_of("mod "));
    p.push(chars_of("pub "));
    p.push(chars_of("extern "));
    p.push(chars_of("#["));
    p
}

/// Whether the trimmed text of a line starts with one of the item prefixes.
fn starts_with_any(t: &[char], prefixes: &Vec<Vec<char>>) -> (r: bool)
    requires
        prefixes_ok(prefixes@),
    ensures
        r == exists|k: int| 0 <= k < 13 && starts_with(t@, (#[trigger] prefixes@[k])@),
{
    let mut k: usize = 0;
    while k < prefixes.len()
        invariant
            prefixes_ok(prefixes@),
            k <= 13,
            forall|j: int| 0 <= j < k ==> !starts_with(t@, (#[trigger] prefixes@[j])@),
        decreases 13 - k,
    {
        if starts_with_chars(t, prefixes[k].as_slice()) {
            return true;
        }
        k = k + 1;
    }
    false
}

impl CompilerAdapter for RustAdapter {
    open spec fn language(&self) -> Seq<char> {
        "rust"@
    }

    open spec fn wrapped(&self, fragment: Seq<char>, fragment_type: FragmentType, scaffold: Seq<char>) -> Option<Seq<char>> {
        Some(rust_wrap(fragment, fragment_type, scaffold))
    }

    open spec fn structure(&self, program: Seq<char>) -> Result<(), Seq<char>> {
        rust_structure(program)
    }

    fn language_id(&self) -> (r: &str)
        ensures
            r@ == "rust"@,
    {
        "rust"
    }

    fn run_command(&self) -> (r: &str)
        ensures
            r@ == "rustc {SRC} -o {OUT} --edition 2021 && {OUT}"@,
    {
        "rustc {SRC} -o {OUT} --edition 2021 && {OUT}"
    }

    fn timeout_seconds(&self) -> (r: u32)
        ensures
            r == 5,
    {
        5
    }

    fn file_extension(&self) -> (r: &str)
        ensures
            r@ == "rs"@,
    {
        "rs"
    }

    fn compiler_flags(&self) -> (r: Vec<String>)
        ensures
            views(r@) == seq!["-A"@, "unused"@, "-A"@, "dead_code"@],
    {
        let mut flags: Vec<String> = Vec::new();
        flags.push(owned("-A"));
        flags.push(owned("unused"));
        flags.push(owned("-A"));
        flags.push(owned("dead_code"));
        assert(views(flags@) =~= seq!["-A"@, "unused"@, "-A"@, "dead_code"@]);
        flags
    }

    fn wrap_fragment(&self, fragment: &str, fragment_type: &FragmentType, scaffold: &str) -> (r:
        Option<String>)
        ensures
            r is Some,
            r->Some_0@ == rust_wrap(fragment@, *fragment_type, scaffold@),
    {
        proof {
            reveal_strlit("{SCAFFOLD_OUTER}");
            reveal_strlit("{SCAFFOLD_INNER}");
            reveal_strlit("{SCAFFOLD}");
            reveal_strlit("{FRAGMENT}");
        }
        let template = self.template(fragment_type);
        let t = chars_of(template.as_str());
        let frag = chars_of(fragment);
        let program = match fragment_type {
            FragmentType::Statement | FragmentType::Expression => {
                let (outer, inner) = Self::split_scaffold(scaffold);
                let o = chars_of(outer.as_str());
                let i = chars_of(inner.as_str());
                let p1 = replace_chars(t.as_slice(), chars_of("{SCAFFOLD_OUTER}").as_slice(), o.as_slice());
                let p2 = replace_chars(p1.as_slice(), chars_of("{SCAFFOLD_INNER}").as_slice(), i.as_slice());
                replace_chars(p2.as_slice(), chars_of("{FRAGMENT}").as_slice(), frag.as_slice())
            },
            _ => {
                let s = chars_of(scaffold);
                let p1 = replace_chars(t.as_slice(), chars_of("{SCAFFOLD}").as_slice(), s.as_slice());
                replace_chars(p1.as_slice(), chars_of("{FRAGMENT}").as_slice(), frag.as_slice())
            },
        };
        let text = crate::text::string_from(program.as_slice());
        Some(Self::clean_empty_lines(text.as_str()))
    }

    fn validate_program_structure(&self, program: &str) -> (r: Result<(), String>)
        ensures
            match rust_structure(program@) {
                Ok(()) => r is Ok,
                Err(m) => r is Err && r->Err_0@ == m,
            },
    {
        if is_blank(program) {
            return Err(owned("Wrapped program is empty"));
        }
        let chars = chars_of(program);
        if !contains_chars(chars.as_slice(), chars_of("fn main").as_slice()) {
            return Err(owned("Rust program missing fn main"));
        }
        Ok(())
    }
}

// ══════════════════════════════════════════════════════════════
// Expected Output Contract
// ══════════════════════════════════════════════════════════════

#[derive(Debug, Clone, PartialEq)]
pub struct ExpectedOutput {
    pub exit_code: i32,
    pub stdout: String,
    pub stderr: String,
    pub stderr_contains: Option<String>,
}

// ══════════════════════════════════════════════════════════════
// Validation Results
// ══════════════════════════════════════════════════════════════

#[derive(Debug, Clone, PartialEq)]
pub struct ChallengeValidation {
    pub challenge_id: String,
    pub status: ValidationStatus,
    pub answers_checked: u32,
    pub answers_passed: u32,
    pub errors: Vec<String>,
}

#[derive(Debug, Clone, Copy, PartialEq, Eq, Structural)]
pub enum ValidationStatus {
    Verified,
    Failed,
    Pending,
    NoAdapter,
}

// ══════════════════════════════════════════════════════════════
// Static Validation — language-agnostic orchestrator
// ══════════════════════════════════════════════════════════════

/// The tag that opens every error about a challenge: `[<id>] `.
pub open spec fn tag(c: Challenge) -> Seq<char> {
    "["@ + c.id@ + "] "@
}

pub open spec fn answer_empty_message(c: Challenge) -> Seq<char> {
    tag(c) + "answer is empty"@
}

/// The error for a token at position `i` that no chip group offers: of the
/// answer itself (`vi` is `None`) or of answer variant `vi`.
pub open spec fn token_message(c: Challenge, vi: Option<nat>, token: Seq<char>, i: nat) -> Seq<
    char,
> {
    match vi {
        None => tag(c) + "answer token '"@ + token + "' at position "@ + decimal(i)
            + " not found in any chip group"@,
        Some(v) => tag(c) + "answer_variant["@ + decimal(v) + "] token '"@ + token
            + "' at position "@ + decimal(i) + " not in chips"@,
    }
}

pub open spec fn variant_empty_message(c: Challenge, vi: nat) -> Seq<char> {
    tag(c) + "answer_variant["@ + decimal(vi) + "] is empty"@
}

pub open spec fn group_empty_message(c: Challenge, group: Seq<char>) -> Seq<char> {
    tag(c) + "chip group '"@ + group + "' has no tokens"@
}

pub open spec fn no_adapter_message(c: Challenge) -> Seq<char> {
    tag(c) + "no compiler adapter registered for language '"@ + c.language@ + "'"@
}

/// A fragment kind as `{:?}` renders it.
pub open spec fn fragment_type_name(ft: FragmentType) -> Seq<char> {
    match ft {
        FragmentType::Expression => "Expression"@,
        FragmentType::Statement => "Statement"@,
        FragmentType::FnDef => "FnDef"@,
        FragmentType::TypeDef => "TypeDef"@,
        FragmentType::Program => "Program"@,
    }
}

pub open spec fn no_wrapper_message(c: Challenge) -> Seq<char> {
    tag(c) + "adapter '"@ + c.language@ + "' has no wrapper for fragment_type "@
        + fragment_type_name(c.fragment_type)
}

/// Every token of every chip group, group after group.
pub open spec fn chip_tokens(groups: Seq<ChipGroup>) -> Seq<Seq<char>>
    decreases groups.len(),
{
    if groups.len() == 0 {
        seq![]
    } else {
        chip_tokens(groups.drop_last()) + views(groups.last().tokens@)
    }
}

/// The answer variants as token sequences.
pub open spec fn variants_of(c: Challenge) -> Seq<Seq<Seq<char>>> {
    c.answer_variants@.map_values(|v: Vec<String>| views(v@))
}

/// One error per token that the pool lacks, in token order.
pub open spec fn token_errors(
    c: Challenge,
    vi: Option<nat>,
    pool: Seq<Seq<char>>,
    tokens: Seq<Seq<char>>,
) -> Seq<Seq<char>>
    decreases tokens.len(),
{
    if tokens.len() == 0 {
        seq![]
    } else {
        let i = (tokens.len() - 1) as nat;
        token_errors(c, vi, pool, tokens.drop_last()) + if pool.contains(tokens[i as int]) {
            Seq::<Seq<char>>::empty()
        } else {
            seq![token_message(c, vi, tokens[i as int], i)]
        }
    }
}

/// How many of the tokens the pool holds.
pub open spec fn count_present(pool: Seq<Seq<char>>, tokens: Seq<Seq<char>>) -> nat
    decreases tokens.len(),
{
    if tokens.len() == 0 {
        0
    } else {
        count_present(pool, tokens.drop_last()) + if pool.contains(tokens.last()) {
            1nat
        } else {
            0nat
        }
    }
}

/// The errors of the answer variants: for each, whether it is empty, then
/// its tokens that no chip group offers.
pub open spec fn variant_errors(c: Challenge, pool: Seq<Seq<char>>, vs: Seq<Seq<Seq<char>>>) -> Seq<
    Seq<char>,
>
    decreases vs.len(),
{
    if vs.len() == 0 {
        seq![]
    } else {
        let vi = (vs.len() - 1) as nat;
        let v = vs[vi as int];
        variant_errors(c, pool, vs.drop_last()) + (if v.len() == 0 {
            seq![variant_empty_message(c, vi)]
        } else {
            Seq::<Seq<char>>::empty()
        }) + token_errors(c, Some(vi), pool, v)
    }
}

pub open spec fn variant_lengths(vs: Seq<Seq<Seq<char>>>) -> nat
    decreases vs.len(),
{
    if vs.len() == 0 {
        0
    } else {
        variant_lengths(vs.drop_last()) + vs.last().len()
    }
}

pub open spec fn variant_present(pool: Seq<Seq<char>>, vs: Seq<Seq<Seq<char>>>) -> nat
    decreases vs.len(),
{
    if vs.len() == 0 {
        0
    } else {
        variant_present(pool, vs.drop_last()) + count_present(pool, vs.last())
    }
}

/// One error per chip group without tokens.
pub open spec fn group_errors(c: Challenge, groups: Seq<ChipGroup>) -> Seq<Seq<char>>
    decreases groups.len(),
{
    if groups.len() == 0 {
        seq![]
    } else {
        group_errors(c, groups.drop_last()) + if groups.last().tokens@.len() == 0 {
            seq![group_empty_message(c, groups.last().group@)]
        } else {
            Seq::<Seq<char>>::empty()
        }
    }
}

/// The errors that need no adapter, in the order they are found.
pub open spec fn static_errors(c: Challenge) -> Seq<Seq<char>> {
    let pool = chip_tokens(c.chips@);
    (if c.answer@.len() == 0 {
        seq![answer_empty_message(c)]
    } else {
        Seq::<Seq<char>>::empty()
    }) + token_errors(c, None, pool, views(c.answer@)) + variant_errors(c, pool, variants_of(c))
        + group_errors(c, c.chips@)
}

/// How many answer tokens (of the answer and of its variants) are checked.
pub open spec fn total_tokens(c: Challenge) -> nat {
    c.answer@.len() + variant_lengths(variants_of(c))
}

/// How many of them a chip group offers.
pub open spec fn passed_tokens(c: Challenge) -> nat {
    let pool = chip_tokens(c.chips@);
    count_present(pool, views(c.answer@)) + variant_present(pool, variants_of(c))
}

/// What the language's adapter made of a challenge's answer.
pub enum AdapterOutcome {
    /// No adapter is registered for the challenge's language.
    Missing,
    /// The adapter has no template for the challenge's kind of fragment.
    NoWrapper,
    /// The rebuilt program failed the adapter's structural check, with its message.
    Rejected(String),
    /// The rebuilt program passed the structural check.
    Accepted,
}

pub open spec fn adapter_errors(c: Challenge, o: AdapterOutcome) -> Seq<Seq<char>> {
    match o {
        AdapterOutcome::Missing => seq![no_adapter_message(c)],
        AdapterOutcome::NoWrapper => seq![no_wrapper_message(c)],
        AdapterOutcome::Rejected(e) => seq![tag(c) + e@],
        AdapterOutcome::Accepted => seq![],
    }
}

/// `v` is the report on `c` with these errors.
pub open spec fn report_is(c: Challenge, errors: Seq<Seq<char>>, v: ChallengeValidation) -> bool {
    &&& v.challenge_id@ == c.id@
    &&& views(v.errors@) == errors
    &&& v.answers_checked == total_tokens(c)
    &&& v.answers_passed == passed_tokens(c)
    &&& v.status == if errors.len() == 0 {
        ValidationStatus::Verified
    } else {
        ValidationStatus::Failed
    }
}

/// `v` is the report on `c` given what its adapter made of it.
pub open spec fn validation_is(c: Challenge, o: AdapterOutcome, v: ChallengeValidation) -> bool {
    report_is(c, static_errors(c) + adapter_errors(c, o), v)
}

/// The errors from the adapter registered for the challenge's language:
/// none registered; no template for the kind of fragment; or the message
/// with which its structural check rejects the program it rebuilt from the
/// answer tokens joined by spaces, with the challenge's scaffold.
pub open spec fn registry_errors(reg: AdapterRegistry, c: Challenge) -> Seq<Seq<char>> {
    if !reg@.contains(c.language@) {
        seq![no_adapter_message(c)]
    } else {
        match reg.wraps(c.language@, join(views(c.answer@), " "@), c.fragment_type, c.scaffold@) {
            None => seq![no_wrapper_message(c)],
            Some(p) => match reg.checks(c.language@, p) {
                Ok(()) => seq![],
                Err(m) => seq![tag(c) + m],
            },
        }
    }
}

/// `v` is the report on `c` checked with the adapters of `reg`.
pub open spec fn statically_validated(reg: AdapterRegistry, c: Challenge, v: ChallengeValidation) -> bool {
    report_is(c, static_errors(c) + registry_errors(reg, c), v)
}

/// `Some(v)` as a natural number.
pub open spec fn opt_nat(vi: Option<usize>) -> Option<nat> {
    match vi {
        Some(v) => Some(v as nat),
        None => None,
    }
}

proof fn lemma_count_present_le(pool: Seq<Seq<char>>, tokens: Seq<Seq<char>>)
    ensures
        count_present(pool, tokens) <= tokens.len(),
    decreases tokens.len(),
{
    if tokens.len() > 0 {
        lemma_count_present_le(pool, tokens.drop_last());
    }
}

proof fn lemma_variant_present_le(pool: Seq<Seq<char>>, vs: Seq<Seq<Seq<char>>>)
    ensures
        variant_present(pool, vs) <= variant_lengths(vs),
    decreases vs.len(),
{
    if vs.len() > 0 {
        lemma_variant_present_le(pool, vs.drop_last());
        lemma_count_present_le(pool, vs.last());
    }
}

proof fn lemma_variant_lengths_prefix(vs: Seq<Seq<Seq<char>>>, k: int)
    requires
        0 <= k <= vs.len(),
    ensures
        variant_lengths(vs.take(k)) <= variant_lengths(vs),
    decreases vs.len(),
{
    if k == vs.len() {
        assert(vs.take(k) =~= vs);
    } else {
        assert(vs.take(k) =~= vs.drop_last().take(k));
        lemma_variant_lengths_prefix(vs.drop_last(), k);
    }
}

/// `[<id>] `.
fn tag_string(c: &Challenge) -> (r: String)
    ensures
        r@ == tag(*c),
{
    let mut r = owned("[");
    r.append(c.id.as_str());
    r.append("] ");
    r
}

fn token_message_string(c: &Challenge, vi: Option<usize>, token: &String, i: usize) -> (m: String)
    ensures
        m@ == token_message(*c, opt_nat(vi), token@, i as nat),
{
    let mut m = tag_string(c);
    match vi {
        None => {
            m.append("answer token '");
            m.append(token.as_str());
            m.append("' at position ");
            push_decimal(&mut m, i as u64);
            m.append(" not found in any chip group");
        },
        Some(v) => {
            m.append("answer_variant[");
            push_decimal(&mut m, v as u64);
            m.append("] token '");
            m.append(token.as_str());
            m.append("' at position ");
            push_decimal(&mut m, i as u64);
            m.append(" not in chips");
        },
    }
    m
}

/// Every chip token of the groups, group after group.
fn chip_pool(groups: &Vec<ChipGroup>) -> (pool: Vec<String>)
    ensures
        views(pool@) == chip_tokens(groups@),
{
    let mut pool: Vec<String> = Vec::new();
    let mut g: usize = 0;
    while g < groups.len()
        invariant
            g <= groups@.len(),
            views(pool@) == chip_tokens(groups@.take(g as int)),
        decreases groups@.len() - g,
    {
        let tokens = &groups[g].tokens;
        let ghost before = views(pool@);
        let mut k: usize = 0;
        while k < tokens.len()
            invariant
                g < groups@.len(),
                *tokens == groups@[g as int].tokens,
                k <= tokens@.len(),
                views(pool@) == before + views(tokens@.take(k as int)),
            decreases tokens@.len() - k,
        {
            let ghost prev = pool@;
            let t = tokens[k].clone();
            pool.push(t);
            assert(views(pool@) =~= views(prev).push(tokens@[k as int]@));
            assert(views(tokens@.take(k + 1)) =~= views(tokens@.take(k as int)).push(tokens@[k as int]@));
            assert(views(pool@) =~= before + views(tokens@.take(k + 1)));
            k = k + 1;
        }
        assert(groups@.take(g + 1).drop_last() =~= groups@.take(g as int));
        assert(tokens@.take(tokens@.len() as int) =~= tokens@);
        g = g + 1;
    }
    assert(groups@.take(groups@.len() as int) =~= groups@);
    pool
}

/// Checks each token against the chip pool: counts those found and reports
/// the others, in order.
fn token_checks(
    c: &Challenge,
    vi: Option<usize>,
    tokens: &Vec<String>,
    pool: &Vec<String>,
    errors: &mut Vec<String>,
) -> (passed: usize)
    ensures
        views(final(errors)@) == views(old(errors)@) + token_errors(
            *c,
            opt_nat(vi),
            views(pool@),
            views(tokens@),
        ),
        passed == count_present(views(pool@), views(tokens@)),
{
    let ghost pv = views(pool@);
    let ghost tv = views(tokens@);
    let ghost start = views(errors@);
    let mut passed: usize = 0;
    let mut i: usize = 0;
    while i < tokens.len()
        invariant
            i <= tokens@.len(),
            pv == views(pool@),
            tv == views(tokens@),
            views(errors@) == start + token_errors(*c, opt_nat(vi), pv, tv.take(i as int)),
            passed == count_present(pv, tv.take(i as int)),
            passed <= i,
        decreases tokens@.len() - i,
    {
        let token = &tokens[i];
        proof {
            assert(tv.take(i + 1).drop_last() =~= tv.take(i as int));
            assert(tv.take(i + 1)[i as int] == token@);
            lemma_count_present_le(pv, tv.take(i as int));
        }
        let ghost prev = errors@;
        let ghost added = if pv.contains(token@) {
            Seq::<Seq<char>>::empty()
        } else {
            seq![token_message(*c, opt_nat(vi), token@, i as nat)]
        };
        assert(token_errors(*c, opt_nat(vi), pv, tv.take(i + 1)) == token_errors(
            *c,
            opt_nat(vi),
            pv,
            tv.take(i as int),
        ) + added);
        if contains_string(pool.as_slice(), token) {
            passed = passed + 1;
            assert(views(errors@) =~= views(prev) + added);
        } else {
            let m = token_message_string(c, vi, token, i);
            errors.push(m);
            assert(views(errors@) =~= views(prev) + added);
        }
        assert(views(errors@) =~= start + token_errors(*c, opt_nat(vi), pv, tv.take(i + 1)));
        i = i + 1;
    }
    assert(tv.take(tokens@.len() as int) =~= tv);
    passed
}

/// Checks every answer variant: reports an empty one, then its tokens that
/// no chip group offers. Returns how many tokens were checked and found.
fn variant_checks(c: &Challenge, pool: &Vec<String>, errors: &mut Vec<String>) -> (r: (usize, usize))
    requires
        variant_lengths(variants_of(*c)) <= u32::MAX,
    ensures
        views(final(errors)@) == views(old(errors)@) + variant_errors(*c, views(pool@), variants_of(*c)),
        r.0 == variant_lengths(variants_of(*c)),
        r.1 == variant_present(views(pool@), variants_of(*c)),
{
    let ghost pv = views(pool@);
    let ghost vs = variants_of(*c);
    let ghost start = views(errors@);
    let mut checked: usize = 0;
    let mut passed: usize = 0;
    let mut vi: usize = 0;
    while vi < c.answer_variants.len()
        invariant
            vi <= vs.len(),
            pv == views(pool@),
            vs == variants_of(*c),
            vs.len() == c.answer_variants@.len(),
            variant_lengths(vs) <= u32::MAX,
            views(errors@) == start + variant_errors(*c, pv, vs.take(vi as int)),
            checked == variant_lengths(vs.take(vi as int)),
            passed == variant_present(pv, vs.take(vi as int)),
        decreases vs.len() - vi,
    {
        let variant = &c.answer_variants[vi];
        proof {
            assert(vs.take(vi + 1).drop_last() =~= vs.take(vi as int));
            assert(vs.take(vi + 1)[vi as int] == views(variant@));
            lemma_variant_lengths_prefix(vs, vi + 1);
            lemma_variant_present_le(pv, vs.take(vi + 1));
        }
        let ghost mid = views(errors@);
        if variant.len() == 0 {
            let mut m = tag_string(c);
            m.append("answer_variant[");
            push_decimal(&mut m, vi as u64);
            m.append("] is empty");
            errors.push(m);
        }
        assert(views(errors@) =~= mid + (if views(variant@).len() == 0 {
            seq![variant_empty_message(*c, vi as nat)]
        } else {
            Seq::<Seq<char>>::empty()
        }));
        let found = token_checks(c, Some(vi), variant, pool, errors);
        checked = checked + variant.len();
        passed = passed + found;
        assert(views(errors@) =~= start + variant_errors(*c, pv, vs.take(vi + 1)));
        vi = vi + 1;
    }
    assert(vs.take(vs.len() as int) =~= vs);
    (checked, passed)
}

/// Reports every chip group without tokens.
fn group_checks(c: &Challenge, errors: &mut Vec<String>)
    ensures
        views(final(errors)@) == views(old(errors)@) + group_errors(*c, c.chips@),
{
    let ghost start = views(errors@);
    let mut g: usize = 0;
    while g < c.chips.len()
        invariant
            g <= c.chips@.len(),
            views(errors@) == start + group_errors(*c, c.chips@.take(g as int)),
        decreases c.chips@.len() - g,
    {
        let group = &c.chips[g];
        assert(c.chips@.take(g + 1).drop_last() =~= c.chips@.take(g as int));
        let ghost prev = errors@;
        let ghost added = if group.tokens@.len() == 0 {
            seq![group_empty_message(*c, group.group@)]
        } else {
            Seq::<Seq<char>>::empty()
        };
        assert(group_errors(*c, c.chips@.take(g + 1)) == group_errors(*c, c.chips@.take(g as int))
            + added);
        if group.tokens.len() == 0 {
            let mut m = tag_string(c);
            m.append("chip group '");
            m.append(group.group.as_str());
            m.append("' has no tokens");
            errors.push(m);
        }
        assert(views(errors@) =~= views(prev) + added);
        assert(views(errors@) =~= start + group_errors(*c, c.chips@.take(g + 1)));
        g = g + 1;
    }
    assert(c.chips@.take(c.chips@.len() as int) =~= c.chips@);
}

/// The report on a challenge given what its language's adapter made of it:
/// every static error, then the adapter's, with the token counts.
pub fn finish_validation(challenge: &Challenge, outcome: AdapterOutcome) -> (r: ChallengeValidation)
    requires
        total_tokens(*challenge) <= u32::MAX,
    ensures
        validation_is(*challenge, outcome, r),
{
    let pool = chip_pool(&challenge.chips);
    let ghost pv = views(pool@);
    let mut errors: Vec<String> = Vec::new();
    if challenge.answer.len() == 0 {
        let mut m = tag_string(challenge);
        m.append("answer is empty");
        errors.push(m);
    }
    let answer_passed = token_checks(challenge, None, &challenge.answer, &pool, &mut errors);
    let (variant_checked, variant_passed) = variant_checks(challenge, &pool, &mut errors);
    group_checks(challenge, &mut errors);
    let ghost before_adapter = views(errors@);
    match outcome {
        AdapterOutcome::Missing => {
            let mut m = tag_string(challenge);
            m.append("no compiler adapter registered for language '");
            m.append(challenge.language.as_str());
            m.append("'");
            errors.push(m);
        },
        AdapterOutcome::NoWrapper => {
            let mut m = tag_string(challenge);
            m.append("adapter '");
            m.append(challenge.language.as_str());
            m.append("' has no wrapper for fragment_type ");
            m.append(fragment_type_label(&challenge.fragment_type));
            errors.push(m);
        },
        AdapterOutcome::Rejected(e) => {
            let mut m = tag_string(challenge);
            m.append(e.as_str());
            errors.push(m);
        },
        AdapterOutcome::Accepted => {},
    }
    proof {
        assert(views(errors@) =~= before_adapter + adapter_errors(*challenge, outcome));
        assert(opt_nat(None) == Option::<nat>::None);
        lemma_count_present_le(pv, views(challenge.answer@));
        lemma_variant_present_le(pv, variants_of(*challenge));
        assert(views(errors@) =~= static_errors(*challenge) + adapter_errors(*challenge, outcome));
    }
    let checked = challenge.answer.len() + variant_checked;
    let passed = answer_passed + variant_passed;
    let status = if errors.len() == 0 {
        ValidationStatus::Verified
    } else {
        ValidationStatus::Failed
    };
    ChallengeValidation {
        challenge_id: owned(challenge.id.as_str()),
        status,
        answers_checked: checked as u32,
        answers_passed: passed as u32,
        errors,
    }
}

/// A fragment kind as `{:?}` renders it.
fn fragment_type_label(ft: &FragmentType) -> (r: &'static str)
    ensures
        r@ == fragment_type_name(*ft),
{
    match ft {
        FragmentType::Expression => "Expression",
        FragmentType::Statement => "Statement",
        FragmentType::FnDef => "FnDef",
        FragmentType::TypeDef => "TypeDef",
        FragmentType::Program => "Program",
    }
}

/// The fragment that a challenge's answer makes: its tokens joined by spaces.
pub fn answer_fragment(challenge: &Challenge) -> (r: String)
    ensures
        r@ == join(views(challenge.answer@), " "@),
{
    join_strings(challenge.answer.as_slice(), " ")
}

/// Asks the adapter of the challenge's language to rebuild the program
/// around the answer fragment and check its structure.
pub fn check_with_adapter(challenge: &Challenge, registry: &AdapterRegistry) -> (o: AdapterOutcome)
    ensures
        (o is Missing) <==> !registry@.contains(challenge.language@),
        adapter_errors(*challenge, o) == registry_errors(*registry, *challenge),
{
    match registry.get(challenge.language.as_str()) {
        None => AdapterOutcome::Missing,
        Some(adapter) => {
            let fragment = answer_fragment(challenge);
            match adapter.wrap_fragment(
                fragment.as_str(),
                &challenge.fragment_type,
                challenge.scaffold.as_str(),
            ) {
                Some(program) => match adapter.validate_program_structure(program.as_str()) {
                    Ok(()) => AdapterOutcome::Accepted,
                    Err(e) => AdapterOutcome::Rejected(e),
                },
                None => AdapterOutcome::NoWrapper,
            }
        },
    }
}

/// Checks a challenge's structure, whatever its language: a non-empty
/// answer, every answer token (and every variant's) offered by a chip
/// group, no empty chip group, a registered adapter for its language, and
/// a rebuilt program that the adapter accepts.
pub fn validate_challenge_static(challenge: &Challenge, registry: &AdapterRegistry) -> (r:
    ChallengeValidation)
    requires
        total_tokens(*challenge) <= u32::MAX,
    ensures
        statically_validated(*registry, *challenge, r),
{
    let outcome = check_with_adapter(challenge, registry);
    let ghost o = outcome;
    let r = finish_validation(challenge, outcome);
    assert(validation_is(*challenge, o, r));
    r
}

/// How many reports say `Verified`.
pub open spec fn count_verified(vs: Seq<ChallengeValidation>) -> nat
    decreases vs.len(),
{
    if vs.len() == 0 {
        0
    } else {
        count_verified(vs.drop_last()) + if vs.last().status == ValidationStatus::Verified {
            1nat
        } else {
            0nat
        }
    }
}

proof fn lemma_count_verified_le(vs: Seq<ChallengeValidation>)
    ensures
        count_verified(vs) <= vs.len(),
    decreases vs.len(),
{
    if vs.len() > 0 {
        lemma_count_verified_le(vs.drop_last());
    }
}

/// Validates every challenge of a pack, in order: how many passed, how many
/// failed, and each report.
#[verifier::spinoff_prover]
pub fn validate_all_challenges(pack: &LanguagePack, registry: &AdapterRegistry) -> (r: (
    usize,
    usize,
    Vec<ChallengeValidation>,
))
    requires
        forall|i: int|
            0 <= i < pack.challenges@.len() ==> total_tokens(#[trigger] pack.challenges@[i])
                <= u32::MAX,
    ensures
        r.2@.len() == pack.challenges@.len(),
        forall|i: int|
            0 <= i < r.2@.len() ==> statically_validated(
                *registry,
                pack.challenges@[i],
                #[trigger] r.2@[i],
            ),
        r.0 == count_verified(r.2@),
        r.0 + r.1 == r.2@.len(),
{
    let mut passed: usize = 0;
    let mut failed: usize = 0;
    let mut results: Vec<ChallengeValidation> = Vec::new();
    let mut i: usize = 0;
    while i < pack.challenges.len()
        invariant
            i <= pack.challenges@.len(),
            forall|k: int|
                0 <= k < pack.challenges@.len() ==> total_tokens(#[trigger] pack.challenges@[k])
                    <= u32::MAX,
            results@.len() == i,
            forall|k: int|
                0 <= k < i ==> statically_validated(
                    *registry,
                    pack.challenges@[k],
                    #[trigger] results@[k],
                ),
            passed == count_verified(results@),
            passed + failed == i,
        decreases pack.challenges@.len() - i,
    {
        let result = validate_challenge_static(&pack.challenges[i], registry);
        let ghost before = results@;
        let verified = match result.status {
            ValidationStatus::Verified => true,
            _ => false,
        };
        results.push(result);
        assert(results@.drop_last() =~= before);
        if verified {
            passed = passed + 1;
        } else {
            failed = failed + 1;
        }
        i = i + 1;
    }
    (passed, failed, results)
}

// ── Laws ──

/// A report never counts more tokens found than tokens checked.
pub proof fn law_passed_within_checked(c: Challenge)
    ensures
        passed_tokens(c) <= total_tokens(c),
{
    lemma_count_present_le(chip_tokens(c.chips@), views(c.answer@));
    lemma_variant_present_le(chip_tokens(c.chips@), variants_of(c));
}

/// Registering an adapter keeps every language registered before, adds
/// its own, and never lists a language twice.
pub proof fn law_register_keeps_languages(ids: Seq<Seq<char>>, id: Seq<char>)
    requires
        distinct(ids),
    ensures
        forall|x: Seq<char>| ids.contains(x) ==> #[trigger] insert_id(ids, id).contains(x),
        insert_id(ids, id).contains(id),
        distinct(insert_id(ids, id)),
{
    lemma_insert_id_distinct(ids, id);
    if !ids.contains(id) {
        assert forall|x: Seq<char>| ids.contains(x) implies #[trigger] insert_id(ids, id).contains(x) by {
            let j = choose|j: int| 0 <= j < ids.len() && ids[j] == x;
            assert(ids.push(id)[j] == x);
        }
        assert(ids.push(id)[ids.len() as int] == id);
    }
}

/// A challenge is verified exactly when its report has no error; with an
/// adapter that accepts it, that is when it has no static error.
pub proof fn law_verified_iff_no_error(c: Challenge, o: AdapterOutcome, v: ChallengeValidation)
    requires
        validation_is(c, o, v),
    ensures
        (v.status == ValidationStatus::Verified) <==> v.errors@.len() == 0,
        o is Accepted ==> ((v.status == ValidationStatus::Verified) <==> static_errors(c).len()
            == 0),
{
    assert(views(v.errors@).len() == v.errors@.len());
    if o is Accepted {
        assert(static_errors(c) + adapter_errors(c, o) =~= static_errors(c));
    }
}


/// Every token of `v` is in `pool`, and `v` is not empty.
pub open spec fn variant_ok(pool: Seq<Seq<char>>, v: Seq<Seq<char>>) -> bool {
    v.len() > 0 && forall|t: int| 0 <= t < v.len() ==> pool.contains(#[trigger] v[t])
}

/// Every check of `validate_challenge_static` passes: the answer is not
/// empty, each token of the answer and of every variant is offered by a
/// chip group, no variant and no chip group is empty, the language has an
/// adapter, that adapter rebuilds a program from the answer, and accepts
/// it.
pub open spec fn passes_every_check(reg: AdapterRegistry, c: Challenge) -> bool {
    let pool = chip_tokens(c.chips@);
    let lang = c.language@;
    &&& c.answer@.len() > 0
    &&& forall|i: int| 0 <= i < c.answer@.len() ==> pool.contains(#[trigger] views(c.answer@)[i])
    &&& forall|v: int| 0 <= v < variants_of(c).len() ==> #[trigger] variant_ok(pool, variants_of(c)[v])
    &&& forall|g: int| 0 <= g < c.chips@.len() ==> (#[trigger] c.chips@[g]).tokens@.len() > 0
    &&& reg@.contains(lang)
    &&& reg.wraps(lang, join(views(c.answer@), " "@), c.fragment_type, c.scaffold@) matches Some(p)
        && reg.checks(lang, p) is Ok
}

#[verifier::spinoff_prover]
proof fn lemma_token_errors_empty(
    c: Challenge,
    vi: Option<nat>,
    pool: Seq<Seq<char>>,
    tokens: Seq<Seq<char>>,
)
    ensures
        token_errors(c, vi, pool, tokens).len() == 0 <==> forall|i: int|
            0 <= i < tokens.len() ==> pool.contains(#[trigger] tokens[i]),
    decreases tokens.len(),
{
    if tokens.len() > 0 {
        let d = tokens.drop_last();
        let l = tokens.len() - 1;
        lemma_token_errors_empty(c, vi, pool, d);
        if token_errors(c, vi, pool, tokens).len() == 0 {
            assert forall|i: int| 0 <= i < tokens.len() implies pool.contains(#[trigger] tokens[i]) by {
                if i < l {
                    assert(d[i] == tokens[i]);
                }
            }
        }
        if forall|i: int| 0 <= i < tokens.len() ==> pool.contains(#[trigger] tokens[i]) {
            assert forall|i: int| 0 <= i < d.len() implies pool.contains(#[trigger] d[i]) by {
                assert(d[i] == tokens[i]);
            }
            assert(pool.contains(tokens[l]));
        }
    }
}

#[verifier::spinoff_prover]
proof fn lemma_variant_errors_empty(c: Challenge, pool: Seq<Seq<char>>, vs: Seq<Seq<Seq<char>>>)
    ensures
        variant_errors(c, pool, vs).len() == 0 <==> forall|v: int|
            0 <= v < vs.len() ==> #[trigger] variant_ok(pool, vs[v]),
    decreases vs.len(),
{
    if vs.len() > 0 {
        let d = vs.drop_last();
        let l = vs.len() - 1;
        lemma_variant_errors_empty(c, pool, d);
        lemma_token_errors_empty(c, Some(l as nat), pool, vs[l]);
        if variant_errors(c, pool, vs).len() == 0 {
            assert forall|v: int| 0 <= v < vs.len() implies #[trigger] variant_ok(pool, vs[v]) by {
                if v < l {
                    assert(d[v] == vs[v]);
                }
            }
        }
        if forall|v: int| 0 <= v < vs.len() ==> #[trigger] variant_ok(pool, vs[v]) {
            assert forall|v: int| 0 <= v < d.len() implies #[trigger] variant_ok(pool, d[v]) by {
                assert(d[v] == vs[v]);
                assert(variant_ok(pool, vs[v]));
            }
            assert(variant_ok(pool, vs[l]));
        }
    }
}

#[verifier::spinoff_prover]
proof fn lemma_group_errors_empty(c: Challenge, groups: Seq<ChipGroup>)
    ensures
        group_errors(c, groups).len() == 0 <==> forall|g: int|
            0 <= g < groups.len() ==> (#[trigger] groups[g]).tokens@.len() > 0,
    decreases groups.len(),
{
    if groups.len() > 0 {
        let d = groups.drop_last();
        let l = groups.len() - 1;
        lemma_group_errors_empty(c, d);
        if group_errors(c, groups).len() == 0 {
            assert forall|g: int| 0 <= g < groups.len() implies (#[trigger] groups[g]).tokens@.len()
                > 0 by {
                if g < l {
                    assert(d[g] == groups[g]);
                }
            }
        }
        if forall|g: int| 0 <= g < groups.len() ==> (#[trigger] groups[g]).tokens@.len() > 0 {
            assert forall|g: int| 0 <= g < d.len() implies (#[trigger] d[g]).tokens@.len() > 0 by {
                assert(d[g] == groups[g]);
            }
            assert(groups[l].tokens@.len() > 0);
        }
    }
}

/// A report lists no error exactly when every check passes, and says
/// `Verified` exactly when it lists no error.
pub proof fn law_clean_iff_every_check_passes(
    reg: AdapterRegistry,
    c: Challenge,
    v: ChallengeValidation,
)
    requires
        statically_validated(reg, c, v),
    ensures
        v.errors@.len() == 0 <==> passes_every_check(reg, c),
        (v.status == ValidationStatus::Verified) <==> v.errors@.len() == 0,
{
    let pool = chip_tokens(c.chips@);
    lemma_token_errors_empty(c, None, pool, views(c.answer@));
    lemma_variant_errors_empty(c, pool, variants_of(c));
    lemma_group_errors_empty(c, c.chips@);
    assert(views(v.errors@).len() == v.errors@.len());
    assert(views(c.answer@).len() == c.answer@.len());
}


/// `index_of` finds no `c` in a sequence without one.
proof fn lemma_index_of_absent(s: Seq<char>, c: char)
    requires
        !s.contains(c),
    ensures
        index_of(s, c) == s.len(),
    decreases s.len(),
{
    if s.len() > 0 {
        assert(s[0] != c);
        assert forall|i: int| 0 <= i < s.drop_first().len() implies s.drop_first()[i] != c by {
            assert(s.drop_first()[i] == s[i + 1]);
        }
        lemma_index_of_absent(s.drop_first(), c);
    }
}

#[verifier::spinoff_prover]
proof fn lemma_wrap_program_bare(fragment: Seq<char>)
    requires
        !fragment.contains('\n'),
        !is_blank_line(fragment),
    ensures
        rust_wrap(fragment, FragmentType::Program, seq![]) == fragment,
{
    reveal_strlit("{SCAFFOLD}\n{FRAGMENT}");
    reveal_strlit("{SCAFFOLD}");
    reveal_strlit("{FRAGMENT}");
    reveal_strlit("\n{FRAGMENT}");
    reveal_strlit("\n");
    let t = rust_template(FragmentType::Program);
    let r1 = replace_all(t, "{SCAFFOLD}"@, seq![]);
    assert(r1 == "\n{FRAGMENT}"@) by {
        reveal_with_fuel(replace_all, 4);
        assert(t.take(10) == "{SCAFFOLD}"@);
        assert(t.skip(10) == "\n{FRAGMENT}"@);
        let u = t.skip(10);
        assert(u.take(10) != "{SCAFFOLD}"@) by {
            assert(u.take(10)[0] != "{SCAFFOLD}"@[0]);
        }
        assert(u.drop_first() == "{FRAGMENT}"@);
        let w = u.drop_first();
        assert(w.take(10) != "{SCAFFOLD}"@) by {
            assert(w.take(10)[1] != "{SCAFFOLD}"@[1]);
        }
        assert(w.drop_first().len() < 10);
        assert(seq!['\n'] + (seq![w[0]] + w.drop_first()) == u);
    }
    let r2 = replace_all(r1, "{FRAGMENT}"@, fragment);
    assert(r2 == seq!['\n'] + fragment) by {
        reveal_with_fuel(replace_all, 3);
        assert(r1.take(10) != "{FRAGMENT}"@) by {
            assert(r1.take(10)[0] != "{FRAGMENT}"@[0]);
        }
        let w = r1.drop_first();
        assert(w == "{FRAGMENT}"@);
        assert(w.take(10) == "{FRAGMENT}"@);
        assert(w.skip(10).len() == 0);
        assert(fragment + seq![] == fragment);
    }
    assert(fragment.len() > 0) by {
        if fragment.len() == 0 {
            assert(trim(fragment).len() == 0);
        }
    }
    lemma_index_of_absent(fragment, '\n');
    assert(r2.skip(1) == fragment);
    assert(index_of(r2, '\n') == 0);
    assert(lines_of(fragment) == seq![fragment]);
    let ls = lines_of(r2);
    assert(ls == seq![strip_cr(r2.take(0))] + seq![fragment]);
    assert(strip_cr(r2.take(0)) == Seq::<char>::empty());
    let keep = |l: Seq<char>| !is_blank_line(l);
    assert(is_blank_line(Seq::<char>::empty()));
    reveal_with_fuel(Seq::filter, 3);
    assert(ls.drop_last() == seq![Seq::<char>::empty()]);
    assert(seq![Seq::<char>::empty()].drop_last() == Seq::<Seq<char>>::empty());
    assert(ls.filter(keep) == seq![fragment]);
}



proof fn lemma_no_char_tail(a: Seq<char>, c: char)
    requires
        !a.contains(c),
        a.len() > 0,
    ensures
        a[0] != c,
        !a.drop_first().contains(c),
{
    if a[0] == c {
        assert(a.contains(c));
    }
    if a.drop_first().contains(c) {
        let j = choose|j: int| 0 <= j < a.drop_first().len() && a.drop_first()[j] == c;
        assert(a[j + 1] == c);
    }
}

/// Text without `{` passes through a replacement of a `{`-led pattern.
proof fn lemma_replace_plain(a: Seq<char>, x: Seq<char>, pat: Seq<char>, rep: Seq<char>)
    requires
        pat.len() > 0,
        pat[0] == '{',
        !a.contains('{'),
    ensures
        replace_all(a + x, pat, rep) == a + replace_all(x, pat, rep),
    decreases a.len(),
{
    if a.len() == 0 {
        assert(a + x =~= x);
    } else {
        let s = a + x;
        let t = a.drop_first();
        lemma_no_char_tail(a, '{');
        lemma_replace_plain(t, x, pat, rep);
        assert(s.drop_first() =~= t + x);
        if s.len() >= pat.len() {
            assert(s.take(pat.len() as int)[0] != pat[0]);
        }
        assert(a + replace_all(x, pat, rep) =~= seq![a[0]] + (t + replace_all(x, pat, rep)));
        assert(s =~= seq![a[0]] + (t + x));
    }
}

/// The pattern itself is replaced.
proof fn lemma_replace_hit(x: Seq<char>, pat: Seq<char>, rep: Seq<char>)
    requires
        pat.len() > 0,
    ensures
        replace_all(pat + x, pat, rep) == rep + replace_all(x, pat, rep),
{
    let s = pat + x;
    assert(s.take(pat.len() as int) =~= pat);
    assert(s.skip(pat.len() as int) =~= x);
}

/// A `{`-led piece that differs from the pattern at `j` passes through.
proof fn lemma_replace_other(q: Seq<char>, x: Seq<char>, pat: Seq<char>, rep: Seq<char>, j: int)
    requires
        pat.len() > 0,
        pat[0] == '{',
        q.len() > 0,
        !q.drop_first().contains('{'),
        0 <= j < q.len(),
        j < pat.len(),
        q[j] != pat[j],
    ensures
        replace_all(q + x, pat, rep) == q + replace_all(x, pat, rep),
{
    let s = q + x;
    let t = q.drop_first();
    lemma_replace_plain(t, x, pat, rep);
    assert(s.drop_first() =~= t + x);
    if s.len() >= pat.len() {
        assert(s.take(pat.len() as int)[j] != pat[j]);
    } else {
        assert(replace_all(t + x, pat, rep) == t + x);
    }
    assert(q + replace_all(x, pat, rep) =~= seq![q[0]] + (t + replace_all(x, pat, rep)));
    assert(s =~= seq![q[0]] + (t + x));
}

proof fn lemma_index_of_after(a: Seq<char>, x: Seq<char>, c: char)
    requires
        !a.contains(c),
    ensures
        index_of(a + x, c) == a.len() + index_of(x, c),
    decreases a.len(),
{
    if a.len() == 0 {
        assert(a + x =~= x);
    } else {
        lemma_no_char_tail(a, c);
        lemma_index_of_after(a.drop_first(), x, c);
        assert((a + x).drop_first() =~= a.drop_first() + x);
    }
}

/// The first line of `a`, a line break, then `rest`.
proof fn lemma_lines_split(a: Seq<char>, rest: Seq<char>)
    requires
        !a.contains('\n'),
    ensures
        lines_of(a + seq!['\n'] + rest) == seq![strip_cr(a)] + lines_of(rest),
{
    let s = a + seq!['\n'] + rest;
    lemma_index_of_after(a, seq!['\n'] + rest, '\n');
    assert(a + (seq!['\n'] + rest) =~= s);
    assert(index_of(seq!['\n'] + rest, '\n') == 0);
    assert(s.take(a.len() as int) =~= a);
    assert(s.skip(a.len() + 1int) =~= rest);
}

proof fn lemma_lines_one(a: Seq<char>)
    requires
        !a.contains('\n'),
        a.len() > 0,
    ensures
        lines_of(a) == seq![a],
{
    lemma_index_of_absent(a, '\n');
}

/// A line ending in a character that is not whitespace is not blank.
proof fn lemma_not_blank_end(a: Seq<char>, b: Seq<char>)
    requires
        b.len() > 0,
        !is_ws(b.last()),
    ensures
        !is_blank_line(a + b),
{
    lemma_trim_empty_iff_all_ws(a + b);
    assert((a + b)[(a + b).len() - 1] == b.last());
}

proof fn lemma_not_blank_start(a: Seq<char>, b: Seq<char>)
    requires
        !is_blank_line(a),
    ensures
        !is_blank_line(a + b),
{
    lemma_trim_empty_iff_all_ws(a);
    lemma_trim_empty_iff_all_ws(a + b);
    if all_ws(a + b) {
        assert forall|i: int| 0 <= i < a.len() implies is_ws(#[trigger] a[i]) by {
            assert((a + b)[i] == a[i]);
        }
    }
}


proof fn lemma_not_blank_at(s: Seq<char>, i: int)
    requires
        0 <= i < s.len(),
        !is_ws(s[i]),
    ensures
        !is_blank_line(s),
{
    lemma_trim_empty_iff_all_ws(s);
}

proof fn lemma_no_char_concat(a: Seq<char>, b: Seq<char>, c: char)
    requires
        !a.contains(c),
        !b.contains(c),
    ensures
        !(a + b).contains(c),
{
    if (a + b).contains(c) {
        let j = choose|j: int| 0 <= j < (a + b).len() && (a + b)[j] == c;
        if j < a.len() {
            assert(a[j] == c);
        } else {
            assert(b[j - a.len()] == c);
        }
    }
}

proof fn lemma_no_scaffold_lines()
    ensures
        join(outer_lines(Seq::<char>::empty()), "\n"@) == Seq::<char>::empty(),
        join(inner_lines(Seq::<char>::empty()), "\n"@) == Seq::<char>::empty(),
{
    let e = Seq::<char>::empty();
    assert(lines_of(e) == Seq::<Seq<char>>::empty());
    assert(outer_lines(e) == Seq::<Seq<char>>::empty());
    assert(inner_lines(e) == Seq::<Seq<char>>::empty());
}

/// The lines `[e, m, last]` with `e` empty keep `m` and `last`.
proof fn lemma_join_after_empty_line(m: Seq<char>, last: Seq<char>)
    requires
        !is_blank_line(m),
        !is_blank_line(last),
    ensures
        join(seq![Seq::<char>::empty(), m, last].filter(|l: Seq<char>| !is_blank_line(l)), "\n"@)
            == m + "\n"@ + last,
{
    let e = Seq::<char>::empty();
    let ls = seq![e, m, last];
    let keep = |l: Seq<char>| !is_blank_line(l);
    reveal_with_fuel(Seq::filter, 4);
    assert(is_blank_line(e));
    assert(ls.drop_last() =~= seq![e, m]);
    assert(seq![e, m].drop_last() =~= seq![e]);
    assert(seq![e].drop_last() =~= Seq::<Seq<char>>::empty());
    assert(seq![e].filter(keep) =~= Seq::<Seq<char>>::empty());
    assert(seq![e, m].filter(keep) =~= seq![m]);
    assert(ls.filter(keep) =~= seq![m, last]);
    assert(ls.filter(|l: Seq<char>| !is_blank_line(l)) =~= seq![m, last]);
    assert(seq![m, last].drop_last() =~= seq![m]);
    assert(join(seq![m], "\n"@) == m);
    assert(join(seq![m, last], "\n"@) == m + "\n"@ + last);
}

#[verifier::spinoff_prover]
proof fn lemma_wrap_in_main(fragment: Seq<char>, ft: FragmentType, c: Seq<char>, d: Seq<char>)
    requires
        ft == FragmentType::Statement || ft == FragmentType::Expression,
        rust_template(ft) == "{SCAFFOLD_OUTER}"@ + "\nfn main() "@ + "{ "@ + "{SCAFFOLD_INNER}"@ + c
            + "{FRAGMENT}"@ + d,
        !c.contains('{'),
        !d.contains('{'),
        !c.drop_first().contains('\n'),
        c.len() > 0 && c[0] == '\n',
        !d.contains('\n'),
        d.len() > 0 && !is_ws(d.last()),
        !fragment.contains('\n'),
    ensures
        rust_wrap(fragment, ft, Seq::<char>::empty()) == "fn main() { "@ + "\n"@ + (
        c.drop_first() + fragment + d),
{
    reveal_strlit("{SCAFFOLD_OUTER}");
    reveal_strlit("{SCAFFOLD_INNER}");
    reveal_strlit("{FRAGMENT}");
    reveal_strlit("\nfn main() ");
    reveal_strlit("{ ");
    reveal_strlit("fn main() { ");
    reveal_strlit("\n");
    let e = Seq::<char>::empty();
    let outer = "{SCAFFOLD_OUTER}"@;
    let inner = "{SCAFFOLD_INNER}"@;
    let frag = "{FRAGMENT}"@;
    let b = "\nfn main() "@;
    let l = "{ "@;
    assert(!b.contains('{'));
    assert(!l.drop_first().contains('{'));
    assert(!inner.drop_first().contains('{'));
    assert(!frag.drop_first().contains('{'));
    lemma_no_scaffold_lines();
    // Outer scaffold.
    let t = rust_template(ft);
    assert(t =~= outer + (b + (l + (inner + (c + (frag + d))))));
    lemma_replace_hit(b + (l + (inner + (c + (frag + d)))), outer, e);
    lemma_replace_plain(b, l + (inner + (c + (frag + d))), outer, e);
    lemma_replace_other(l, inner + (c + (frag + d)), outer, e, 1);
    lemma_replace_other(inner, c + (frag + d), outer, e, 10);
    lemma_replace_plain(c, frag + d, outer, e);
    lemma_replace_other(frag, d, outer, e, 1);
    lemma_replace_plain(d, e, outer, e);
    assert(d + e =~= d);
    let r1 = replace_all(t, outer, e);
    assert(r1 =~= b + (l + (inner + (c + (frag + d)))));
    // Inner scaffold.
    lemma_replace_plain(b, l + (inner + (c + (frag + d))), inner, e);
    lemma_replace_other(l, inner + (c + (frag + d)), inner, e, 1);
    lemma_replace_hit(c + (frag + d), inner, e);
    lemma_replace_plain(c, frag + d, inner, e);
    lemma_replace_other(frag, d, inner, e, 1);
    lemma_replace_plain(d, e, inner, e);
    let r2 = replace_all(r1, inner, e);
    assert(r2 =~= b + (l + (c + (frag + d))));
    // Fragment.
    lemma_replace_plain(b, l + (c + (frag + d)), frag, fragment);
    lemma_replace_other(l, c + (frag + d), frag, fragment, 1);
    lemma_replace_plain(c, frag + d, frag, fragment);
    lemma_replace_hit(d, frag, fragment);
    lemma_replace_plain(d, e, frag, fragment);
    let r3 = replace_all(r2, frag, fragment);
    let m = "fn main() { "@;
    let last = c.drop_first() + fragment + d;
    assert(r3 =~= e + seq!['\n'] + (m + seq!['\n'] + last));
    // Lines.
    assert(!m.contains('\n'));
    lemma_lines_split(e, m + seq!['\n'] + last);
    lemma_lines_split(m, last);
    lemma_no_char_concat(c.drop_first(), fragment, '\n');
    lemma_no_char_concat(c.drop_first() + fragment, d, '\n');
    lemma_lines_one(last);
    assert(strip_cr(e) == e);
    assert(strip_cr(m) == m);
    assert(lines_of(r3) =~= seq![e, m, last]);
    lemma_not_blank_at(m, 0);
    lemma_not_blank_at(last, last.len() - 1);
    lemma_join_after_empty_line(m, last);
}

#[verifier::spinoff_prover]
proof fn lemma_wrap_item(fragment: Seq<char>, ft: FragmentType)
    requires
        ft == FragmentType::FnDef || ft == FragmentType::TypeDef,
        !fragment.contains('\n'),
        !fragment.contains('\r'),
        !is_blank_line(fragment),
    ensures
        rust_wrap(fragment, ft, Seq::<char>::empty()) == fragment + "\nfn main() {}"@,
{
    reveal_strlit("{SCAFFOLD}\n{FRAGMENT}\nfn main() {}");
    reveal_strlit("{SCAFFOLD}");
    reveal_strlit("{FRAGMENT}");
    reveal_strlit("\nfn main() ");
    reveal_strlit("{}");
    reveal_strlit("\n");
    reveal_strlit("fn main() {}");
    reveal_strlit("\nfn main() {}");
    let e = Seq::<char>::empty();
    let scaf = "{SCAFFOLD}"@;
    let frag = "{FRAGMENT}"@;
    let c = "\n"@;
    let b = "\nfn main() "@;
    let l = "{}"@;
    assert(!b.contains('{'));
    assert(!c.contains('{'));
    assert(!l.drop_first().contains('{'));
    assert(!frag.drop_first().contains('{'));
    let t = rust_template(ft);
    assert(t =~= scaf + (c + (frag + (b + l))));
    lemma_replace_hit(c + (frag + (b + l)), scaf, e);
    lemma_replace_plain(c, frag + (b + l), scaf, e);
    lemma_replace_other(frag, b + l, scaf, e, 1);
    lemma_replace_plain(b, l, scaf, e);
    lemma_replace_other(l, e, scaf, e, 1);
    assert(l + e =~= l);
    let r1 = replace_all(t, scaf, e);
    assert(r1 =~= c + (frag + (b + l)));
    lemma_replace_plain(c, frag + (b + l), frag, fragment);
    lemma_replace_hit(b + l, frag, fragment);
    lemma_replace_plain(b, l, frag, fragment);
    lemma_replace_other(l, e, frag, fragment, 1);
    let r2 = replace_all(r1, frag, fragment);
    let n = "fn main() {}"@;
    assert(r2 =~= e + seq!['\n'] + (fragment + seq!['\n'] + n));
    assert(!n.contains('\n'));
    lemma_lines_split(e, fragment + seq!['\n'] + n);
    lemma_lines_split(fragment, n);
    lemma_lines_one(n);
    assert(strip_cr(fragment) == fragment) by {
        if fragment.len() > 0 && fragment.last() == '\r' {
            assert(fragment.contains(fragment[fragment.len() - 1]));
        }
    }
    assert(lines_of(r2) =~= seq![e, fragment, n]);
    lemma_not_blank_at(n, 0);
    lemma_join_after_empty_line(fragment, n);
    assert(fragment + "\n"@ + n =~= fragment + "\nfn main() {}"@);
}

/// With an empty scaffold, the Rust adapter places a one-line, non-blank
/// fragment as follows: a statement as the body of `fn main`, an
/// expression bound with `let _ =` in `fn main`, a function or type
/// definition before an empty `fn main`, and a whole program as itself.
/// Each program holds the fragment, and every kind but a whole program
/// holds `fn main()`.
#[verifier::spinoff_prover]
pub proof fn law_rust_wrap_without_scaffold(fragment: Seq<char>)
    requires
        !fragment.contains('\n'),
        !fragment.contains('\r'),
        !is_blank_line(fragment),
    ensures
        rust_wrap(fragment, FragmentType::Statement, seq![]) == "fn main() { \n"@ + fragment + " }"@,
        rust_wrap(fragment, FragmentType::Expression, seq![]) == "fn main() { \nlet _ = "@ + fragment
            + "; }"@,
        rust_wrap(fragment, FragmentType::FnDef, seq![]) == fragment + "\nfn main() {}"@,
        rust_wrap(fragment, FragmentType::TypeDef, seq![]) == fragment + "\nfn main() {}"@,
        rust_wrap(fragment, FragmentType::Program, seq![]) == fragment,
{
    reveal_strlit("{SCAFFOLD_OUTER}\nfn main() { {SCAFFOLD_INNER}\nlet _ = {FRAGMENT}; }");
    reveal_strlit("{SCAFFOLD_OUTER}\nfn main() { {SCAFFOLD_INNER}\n{FRAGMENT} }");
    reveal_strlit("{SCAFFOLD_OUTER}");
    reveal_strlit("{SCAFFOLD_INNER}");
    reveal_strlit("{FRAGMENT}");
    reveal_strlit("\nfn main() ");
    reveal_strlit("{ ");
    reveal_strlit("\n");
    reveal_strlit(" }");
    reveal_strlit("\nlet _ = ");
    reveal_strlit("; }");
    reveal_strlit("fn main() { ");
    reveal_strlit("fn main() { \n");
    reveal_strlit("fn main() { \nlet _ = ");
    reveal_strlit("let _ = ");
    let st = "\n"@;
    let sd = " }"@;
    assert(!st.contains('{') && !sd.contains('{') && !sd.contains('\n'));
    assert(st.drop_first() =~= Seq::<char>::empty());
    assert(rust_template(FragmentType::Statement) =~= "{SCAFFOLD_OUTER}"@ + "\nfn main() "@ + "{ "@
        + "{SCAFFOLD_INNER}"@ + st + "{FRAGMENT}"@ + sd);
    lemma_wrap_in_main(fragment, FragmentType::Statement, st, sd);
    assert("fn main() { "@ + "\n"@ + (st.drop_first() + fragment + sd) =~= "fn main() { \n"@ + fragment
        + " }"@);
    let ec = "\nlet _ = "@;
    let ed = "; }"@;
    assert(!ec.contains('{') && !ed.contains('{') && !ed.contains('\n'));
    assert(!ec.drop_first().contains('\n'));
    assert(rust_template(FragmentType::Expression) =~= "{SCAFFOLD_OUTER}"@ + "\nfn main() "@ + "{ "@
        + "{SCAFFOLD_INNER}"@ + ec + "{FRAGMENT}"@ + ed);
    lemma_wrap_in_main(fragment, FragmentType::Expression, ec, ed);
    assert(ec.drop_first() =~= "let _ = "@);
    assert("fn main() { "@ + "\n"@ + (ec.drop_first() + fragment + ed) =~= "fn main() { \nlet _ = "@
        + fragment + "; }"@);
    lemma_wrap_item(fragment, FragmentType::FnDef);
    lemma_wrap_item(fragment, FragmentType::TypeDef);
    lemma_wrap_program_bare(fragment);
}

} // verus!
