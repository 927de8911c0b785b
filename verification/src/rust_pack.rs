//! The Rust language pack embedded in the app: metadata, token categories,
//! context rules, syntax colours, modules and challenges.
use vstd::prelude::*;
use crate::models::{
    Challenge, ChipGroup, ContextRule, FragmentType, LanguageMetadata, LanguagePack, LanguageStatus,
    ModuleInfo, TokenCategory,
};
use crate::text::{owned, views};

verus! {

broadcast use vstd::string::group_string_axioms;

/// The facts about the embedded Rust pack that callers rely on.
pub open spec fn is_rust_pack(p: LanguagePack) -> bool {
    &&& p.metadata.id@ == "rust"@
    &&& p.metadata.display_name@ == "Rust"@
    &&& p.metadata.primary_hue@ == "#f5a623"@
    &&& p.metadata.icon@ == "\u{1F980}"@
    &&& p.metadata.status == LanguageStatus::Available
    &&& p.categories@.len() == 7
    &&& p.context_rules@.len() == 7
    &&& p.modules@.len() == 4
    &&& p.challenges@.len() == 14
    &&& rust_categories(p.categories@)
    &&& rust_modules(p.modules@)
    &&& forall|i: int| 0 <= i < 14 ==> (#[trigger] p.challenges@[i]).id@ == rust_challenge_id(i)
}

/// The id of the challenge at position `i` of the embedded pack: module by
/// module, in each module's order.
pub open spec fn rust_challenge_id(i: int) -> Seq<char> {
    if i < 5 {
        rust_module_challenges(1)[i]
    } else if i < 8 {
        rust_module_challenges(2)[i - 5]
    } else if i < 11 {
        rust_module_challenges(3)[i - 8]
    } else {
        rust_module_challenges(4)[i - 11]
    }
}

fn strings(xs: &[&str]) -> (v: Vec<String>)
    ensures
        v@.len() == xs@.len(),
        forall|i: int| 0 <= i < xs@.len() ==> #[trigger] v@[i]@ == xs@[i]@,
{
    let mut v: Vec<String> = Vec::new();
    let mut i: usize = 0;
    while i < xs.len()
        invariant
            i <= xs@.len(),
            v@.len() == i,
            forall|j: int| 0 <= j < i ==> #[trigger] v@[j]@ == xs@[j]@,
        decreases xs@.len() - i,
    {
        v.push(owned(xs[i]));
        i = i + 1;
    }
    v
}

fn category(name: &str, display_name: &str, css_class: &str, tokens: &[&str]) -> (c: TokenCategory)
    ensures
        c.name@ == name@,
        c.display_name@ == display_name@,
        c.css_class@ == css_class@,
        same_names(c.tokens@, tokens@),
{
    TokenCategory {
        name: owned(name),
        display_name: owned(display_name),
        css_class: owned(css_class),
        tokens: strings(tokens),
    }
}

/// The names in `v` are those of `xs`, in order.
spec fn same_names(v: Seq<String>, xs: Seq<&str>) -> bool {
    v.len() == xs.len() && forall|i: int| 0 <= i < xs.len() ==> #[trigger] v[i]@ == xs[i]@
}

fn rule(after: &[&str], highlight: &[&str], dim: &[&str]) -> (r: ContextRule)
    ensures
        same_names(r.after_tokens@, after@),
        same_names(r.highlight_groups@, highlight@),
        same_names(r.dim_groups@, dim@),
{
    ContextRule { after_tokens: strings(after), highlight_groups: strings(highlight), dim_groups: strings(dim) }
}

fn chip(group: &str, tokens: &[&str]) -> (c: ChipGroup)
    ensures
        c.group@ == group@,
        same_names(c.tokens@, tokens@),
{
    ChipGroup { group: owned(group), tokens: strings(tokens) }
}

fn module(id: u32, title: &str, description: &str, ids: &[&str], is_free: bool) -> (m: ModuleInfo)
    ensures
        m.id == id,
        m.title@ == title@,
        m.description@ == description@,
        same_names(m.challenge_ids@, ids@),
        m.is_free == is_free,
{
    ModuleInfo {
        id,
        title: owned(title),
        description: owned(description),
        challenge_ids: strings(ids),
        is_free,
    }
}

/// The parts of a challenge that vary from one challenge to the next.
struct Spec<'a> {
    id: &'a str,
    module: u32,
    position: u32,
    title: &'a str,
    prompt: &'a str,
    hint_concept: &'a str,
    hint_structural: &'a str,
    fragment_type: FragmentType,
    answer: &'a [&'a str],
    xp: u32,
    explanation: &'a str,
    scaffold: &'a str,
}

fn challenge(s: Spec, variants: Vec<Vec<String>>, chips: Vec<ChipGroup>) -> (c: Challenge)
    ensures
        c.id@ == s.id@,
        c.language@ == "rust"@,
        c.module == s.module,
        c.position == s.position,
        c.title@ == s.title@,
        c.prompt@ == s.prompt@,
        c.hint_concept@ == s.hint_concept@,
        c.hint_structural@ == s.hint_structural@,
        c.fragment_type == s.fragment_type,
        same_names(c.answer@, s.answer@),
        c.answer_variants == variants,
        c.chips == chips,
        c.xp == s.xp,
        c.explanation@ == s.explanation@,
        c.scaffold@ == s.scaffold@,
{
    Challenge {
        id: owned(s.id),
        language: owned("rust"),
        module: s.module,
        position: s.position,
        title: owned(s.title),
        prompt: owned(s.prompt),
        hint_concept: owned(s.hint_concept),
        hint_structural: owned(s.hint_structural),
        fragment_type: s.fragment_type,
        answer: strings(s.answer),
        answer_variants: variants,
        chips,
        xp: s.xp,
        explanation: owned(s.explanation),
        scaffold: owned(s.scaffold),
    }
}

/// The name of each token category of the embedded pack, in order.
pub open spec fn rust_category_name(i: int) -> Seq<char> {
    if i == 0 {
        "keywords"@
    } else if i == 1 {
        "macros"@
    } else if i == 2 {
        "types"@
    } else if i == 3 {
        "strings"@
    } else if i == 4 {
        "symbols"@
    } else if i == 5 {
        "identifiers"@
    } else {
        "numbers"@
    }
}

/// The tokens of each token category of the embedded pack, in order.
pub open spec fn rust_category_tokens(i: int) -> Seq<Seq<char>> {
    if i == 0 {
        seq!["fn"@, "let"@, "mut"@, "if"@, "else"@, "for"@, "in"@, "while"@, "return"@, "struct"@, "impl"@, "use"@, "match"@, "pub"@, "true"@, "false"@]
    } else if i == 1 {
        seq!["println!"@, "vec!"@, "format!"@, "assert!"@]
    } else if i == 2 {
        seq!["i32"@, "u32"@, "i64"@, "f64"@, "bool"@, "String"@, "str"@, "usize"@, "char"@, "Vec"@, "Point"@]
    } else if i == 3 {
        seq!["\"hello\""@, "\"world\""@, "\"{}\""@, "\"positive\""@, "\"Ada\""@]
    } else if i == 4 {
        seq!["("@, ")"@, "{"@, "}"@, "["@, "]"@, ";"@, ":"@, "="@, "->"@, ","@, "."@, ".."@, "+"@, "-"@, "*"@, "&"@, "<"@, ">"@, "=="@]
    } else if i == 5 {
        seq!["x"@, "y"@, "a"@, "b"@, "i"@, "p"@, "v"@, "name"@, "count"@, "total"@, "add"@, "greet"@, "main"@]
    } else {
        seq!["0"@, "1"@, "2"@, "3"@, "5"@, "10"@, "42"@, "100"@]
    }
}

/// The token categories of the embedded pack, with their names and tokens.
pub open spec fn rust_categories(cs: Seq<TokenCategory>) -> bool {
    &&& cs.len() == 7
    &&& forall|i: int|
        0 <= i < 7 ==> (#[trigger] cs[i]).name@ == rust_category_name(i) && views(cs[i].tokens@)
            == rust_category_tokens(i)
}

fn categories() -> (v: Vec<TokenCategory>)
    ensures
        rust_categories(v@),
{
    let c0 = category("keywords", "Keywords", "chip-keyword", &["fn", "let", "mut", "if", "else", "for", "in", "while", "return", "struct", "impl", "use", "match", "pub", "true", "false"]);
    assert(views(c0.tokens@) =~= rust_category_tokens(0));
    let c1 = category("macros", "Macros", "chip-macro", &["println!", "vec!", "format!", "assert!"]);
    assert(views(c1.tokens@) =~= rust_category_tokens(1));
    let c2 = category("types", "Types", "chip-type", &["i32", "u32", "i64", "f64", "bool", "String", "str", "usize", "char", "Vec", "Point"]);
    assert(views(c2.tokens@) =~= rust_category_tokens(2));
    let c3 = category("strings", "Strings", "chip-string", &["\"hello\"", "\"world\"", "\"{}\"", "\"positive\"", "\"Ada\""]);
    assert(views(c3.tokens@) =~= rust_category_tokens(3));
    let c4 = category("symbols", "Symbols", "chip-symbol", &["(", ")", "{", "}", "[", "]", ";", ":", "=", "->", ",", ".", "..", "+", "-", "*", "&", "<", ">", "=="]);
    assert(views(c4.tokens@) =~= rust_category_tokens(4));
    let c5 = category("identifiers", "Identifiers", "chip-identifier", &["x", "y", "a", "b", "i", "p", "v", "name", "count", "total", "add", "greet", "main"]);
    assert(views(c5.tokens@) =~= rust_category_tokens(5));
    let c6 = category("numbers", "Numbers", "chip-number", &["0", "1", "2", "3", "5", "10", "42", "100"]);
    assert(views(c6.tokens@) =~= rust_category_tokens(6));
    let mut v: Vec<TokenCategory> = Vec::new();
    v.push(c0);
    v.push(c1);
    v.push(c2);
    v.push(c3);
    v.push(c4);
    v.push(c5);
    v.push(c6);
    assert(v@[0] == c0 && v@[1] == c1 && v@[2] == c2 && v@[3] == c3 && v@[4] == c4 && v@[5] == c5 && v@[6] == c6);
    v
}

fn context_rules() -> (v: Vec<ContextRule>)
    ensures
        v@.len() == 7,
{
    let mut v: Vec<ContextRule> = Vec::new();
    v.push(rule(&["fn"], &["identifiers"], &["keywords", "macros", "types", "strings", "numbers"]));
    v.push(rule(&["let"], &["identifiers", "keywords"], &["macros", "types", "strings"]));
    v.push(rule(&["let", "mut"], &["identifiers"], &["keywords", "macros", "types", "strings"]));
    v.push(rule(&[":"], &["types"], &["keywords", "macros", "strings", "identifiers", "numbers"]));
    v.push(rule(&["->"], &["types"], &["keywords", "macros", "strings", "identifiers", "numbers"]));
    v.push(rule(&["="], &["identifiers", "numbers", "strings", "macros", "types"], &["keywords"]));
    v.push(rule(&["("], &["identifiers", "numbers", "strings", "types", "symbols"], &["keywords"]));
    v
}

/// The colour of each category's tokens in the editor theme.
pub open spec fn syntax_color(name: Seq<char>) -> Option<Seq<char>> {
    if name == "keywords"@ {
        Some("#c678dd"@)
    } else if name == "macros"@ {
        Some("#61afef"@)
    } else if name == "types"@ {
        Some("#e5c07b"@)
    } else if name == "strings"@ {
        Some("#98c379"@)
    } else if name == "symbols"@ {
        Some("#abb2bf"@)
    } else if name == "identifiers"@ {
        Some("#e06c75"@)
    } else if name == "numbers"@ {
        Some("#d19a66"@)
    } else {
        None
    }
}

/// Where string keys follow the hash-table model, the map holds exactly the
/// colour of each category of the theme.
fn syntax_colors() -> (m: std::collections::HashMap<String, String>)
    ensures
        vstd::std_specs::hash::obeys_key_model::<String>() ==> {
            &&& forall|k: String| #[trigger] m@.contains_key(k) ==> syntax_color(k@) == Some(
                m@[k]@,
            )
            &&& forall|n: Seq<char>|
                #[trigger] syntax_color(n) is Some ==> exists|k: String|
                    #[trigger] m@.contains_key(k) && k@ == n
        },
{
    broadcast use vstd::std_specs::hash::group_hash_axioms;
    let mut m: std::collections::HashMap<String, String> = std::collections::HashMap::new();
    let k1 = owned("keywords");
    let v1 = owned("#c678dd");
    let k2 = owned("macros");
    let v2 = owned("#61afef");
    let k3 = owned("types");
    let v3 = owned("#e5c07b");
    let k4 = owned("strings");
    let v4 = owned("#98c379");
    let k5 = owned("symbols");
    let v5 = owned("#abb2bf");
    let k6 = owned("identifiers");
    let v6 = owned("#e06c75");
    let k7 = owned("numbers");
    let v7 = owned("#d19a66");
    let ghost keys = seq![k1, k2, k3, k4, k5, k6, k7];
    let ghost vals = seq![v1, v2, v3, v4, v5, v6, v7];
    m.insert(k1, v1);
    m.insert(k2, v2);
    m.insert(k3, v3);
    m.insert(k4, v4);
    m.insert(k5, v5);
    m.insert(k6, v6);
    m.insert(k7, v7);
    proof {
        reveal_strlit("keywords");
        reveal_strlit("macros");
        reveal_strlit("types");
        reveal_strlit("strings");
        reveal_strlit("symbols");
        reveal_strlit("identifiers");
        reveal_strlit("numbers");
        reveal_strlit("#c678dd");
        reveal_strlit("#61afef");
        reveal_strlit("#e5c07b");
        reveal_strlit("#98c379");
        reveal_strlit("#abb2bf");
        reveal_strlit("#e06c75");
        reveal_strlit("#d19a66");
        if vstd::std_specs::hash::obeys_key_model::<String>() {
            assert(keys[0]@ == "keywords"@);
            assert(keys[1]@ == "macros"@);
            assert(keys[2]@ == "types"@);
            assert(keys[3]@ == "strings"@);
            assert(keys[4]@ == "symbols"@);
            assert(keys[5]@ == "identifiers"@);
            assert(keys[6]@ == "numbers"@);
            assert(keys[0]@.len() != keys[1]@.len());
            assert(keys[0]@.len() != keys[2]@.len());
            assert(keys[0]@.len() != keys[3]@.len());
            assert(keys[0]@.len() != keys[4]@.len());
            assert(keys[0]@.len() != keys[5]@.len());
            assert(keys[0]@.len() != keys[6]@.len());
            assert(keys[1]@.len() != keys[2]@.len());
            assert(keys[1]@.len() != keys[3]@.len());
            assert(keys[1]@.len() != keys[4]@.len());
            assert(keys[1]@.len() != keys[5]@.len());
            assert(keys[1]@.len() != keys[6]@.len());
            assert(keys[2]@.len() != keys[3]@.len());
            assert(keys[2]@.len() != keys[4]@.len());
            assert(keys[2]@.len() != keys[5]@.len());
            assert(keys[2]@.len() != keys[6]@.len());
            assert(keys[3]@[1] != keys[4]@[1]);
            assert(keys[3]@.len() != keys[5]@.len());
            assert(keys[3]@[0] != keys[6]@[0]);
            assert(keys[4]@.len() != keys[5]@.len());
            assert(keys[4]@[0] != keys[6]@[0]);
            assert(keys[5]@.len() != keys[6]@.len());
            assert(syntax_color(keys[0]@) == Some(vals[0]@));
            assert(syntax_color(keys[1]@) == Some(vals[1]@));
            assert(syntax_color(keys[2]@) == Some(vals[2]@));
            assert(syntax_color(keys[3]@) == Some(vals[3]@));
            assert(syntax_color(keys[4]@) == Some(vals[4]@));
            assert(syntax_color(keys[5]@) == Some(vals[5]@));
            assert(syntax_color(keys[6]@) == Some(vals[6]@));
            assert(forall|i: int| 0 <= i < 7 ==> syntax_color(#[trigger] keys[i]@) == Some(vals[i]@));
            assert(forall|i: int, j: int| 0 <= i < 7 && 0 <= j < 7 && i != j ==> #[trigger] keys[i]@
                != #[trigger] keys[j]@);
            assert forall|k: String| #[trigger] m@.contains_key(k) implies syntax_color(k@) == Some(
                m@[k]@,
            ) by {
                assert(k == keys[0] || k == keys[1] || k == keys[2] || k == keys[3] || k == keys[4]
                    || k == keys[5] || k == keys[6]);
            }
            assert forall|n: Seq<char>| #[trigger] syntax_color(n) is Some implies exists|k: String|
                #[trigger] m@.contains_key(k) && k@ == n by {
                if n == keys[0]@ {
                    assert(m@.contains_key(keys[0]));
                } else if n == keys[1]@ {
                    assert(m@.contains_key(keys[1]));
                } else if n == keys[2]@ {
                    assert(m@.contains_key(keys[2]));
                } else if n == keys[3]@ {
                    assert(m@.contains_key(keys[3]));
                } else if n == keys[4]@ {
                    assert(m@.contains_key(keys[4]));
                } else if n == keys[5]@ {
                    assert(m@.contains_key(keys[5]));
                } else {
                    assert(m@.contains_key(keys[6]));
                }
            }
        }
    }
    m
}

/// The challenge ids of each module of the embedded pack, by module.
pub open spec fn rust_module_challenges(m: int) -> Seq<Seq<char>> {
    if m == 1 {
        seq!["rust-m1-c1"@, "rust-m1-c2"@, "rust-m1-c3"@, "rust-m1-c4"@, "rust-m1-c5"@]
    } else if m == 2 {
        seq!["rust-m2-c1"@, "rust-m2-c2"@, "rust-m2-c3"@]
    } else if m == 3 {
        seq!["rust-m3-c1"@, "rust-m3-c2"@, "rust-m3-c3"@]
    } else {
        seq!["rust-m4-c1"@, "rust-m4-c2"@, "rust-m4-c3"@]
    }
}

/// The modules of the embedded pack: ids 1 to 4 in order, the first three
/// free, with their challenge ids.
pub open spec fn rust_modules(ms: Seq<ModuleInfo>) -> bool {
    &&& ms.len() == 4
    &&& forall|i: int|
        0 <= i < 4 ==> {
            &&& (#[trigger] ms[i]).id == i + 1
            &&& ms[i].is_free == (i < 3)
            &&& views(ms[i].challenge_ids@) == rust_module_challenges(i + 1)
        }
}

fn modules() -> (v: Vec<ModuleInfo>)
    ensures
        rust_modules(v@),
{
    let m1 = module(1, "Variables", "Bind values to names with let.", &["rust-m1-c1", "rust-m1-c2", "rust-m1-c3", "rust-m1-c4", "rust-m1-c5"], true);
    let m2 = module(2, "Functions", "Define and call functions.", &["rust-m2-c1", "rust-m2-c2", "rust-m2-c3"], true);
    let m3 = module(3, "Control Flow", "Branch and loop.", &["rust-m3-c1", "rust-m3-c2", "rust-m3-c3"], true);
    let m4 = module(4, "Structs", "Group data into your own types.", &["rust-m4-c1", "rust-m4-c2", "rust-m4-c3"], false);
    assert(views(m1.challenge_ids@) =~= rust_module_challenges(1));
    assert(views(m2.challenge_ids@) =~= rust_module_challenges(2));
    assert(views(m3.challenge_ids@) =~= rust_module_challenges(3));
    assert(views(m4.challenge_ids@) =~= rust_module_challenges(4));
    let mut v: Vec<ModuleInfo> = Vec::new();
    v.push(m1);
    v.push(m2);
    v.push(m3);
    v.push(m4);
    assert(v@[0] == m1 && v@[1] == m2 && v@[2] == m3 && v@[3] == m4);
    v
}

fn module_one(v: &mut Vec<Challenge>)
    ensures
        final(v)@.len() == old(v)@.len() + 5,
        final(v)@.subrange(0, old(v)@.len() as int) == old(v)@,
        forall|i: int|
            0 <= i < 5 ==> (#[trigger] final(v)@[old(v)@.len() + i]).id@ == rust_module_challenges(1)[i],
{
    let mut variants: Vec<Vec<String>> = Vec::new();
    variants.push(strings(&["let", "x", ":", "i32", "=", "5", ";"]));
    v.push(challenge(
        Spec { id: "rust-m1-c1", module: 1, position: 1, title: "Your first variable",
            prompt: "Create a variable named x that holds the number five.",
            hint_concept: "Variables are introduced with a keyword, then a name, then a value.",
            hint_structural: "_ _ = _ ;", fragment_type: FragmentType::Statement,
            answer: &["let", "x", "=", "5", ";"], xp: 10,
            explanation: "let binds a value to a name; the semicolon ends the statement.", scaffold: "" },
        variants,
        vec![chip("keywords", &["let", "mut", "fn"]), chip("identifiers", &["x", "y"]), chip("types", &["i32"]), chip("symbols", &["=", ":", ";"]), chip("numbers", &["5", "10"])],
    ));
    v.push(challenge(
        Spec { id: "rust-m1-c2", module: 1, position: 2, title: "Mutable variables",
            prompt: "Create a counter named count, starting at zero, that can change later.",
            hint_concept: "Variables are immutable unless you ask for mutability.",
            hint_structural: "_ _ _ = _ ;", fragment_type: FragmentType::Statement,
            answer: &["let", "mut", "count", "=", "0", ";"], xp: 10,
            explanation: "let mut makes a binding that can be reassigned.", scaffold: "" },
        Vec::new(),
        vec![chip("keywords", &["let", "mut", "fn"]), chip("identifiers", &["count", "total"]), chip("symbols", &["=", ";"]), chip("numbers", &["0", "1"])],
    ));
    v.push(challenge(
        Spec { id: "rust-m1-c3", module: 1, position: 3, title: "Type annotations",
            prompt: "Create a variable total of type u32 holding one hundred.",
            hint_concept: "A colon after the name introduces its type.",
            hint_structural: "_ _ : _ = _ ;", fragment_type: FragmentType::Statement,
            answer: &["let", "total", ":", "u32", "=", "100", ";"], xp: 10,
            explanation: "The type follows the name after a colon.", scaffold: "" },
        Vec::new(),
        vec![chip("keywords", &["let", "mut"]), chip("identifiers", &["total", "count"]), chip("types", &["u32", "i32", "bool"]), chip("symbols", &[":", "=", ";"]), chip("numbers", &["100", "10"])],
    ));
    v.push(challenge(
        Spec { id: "rust-m1-c4", module: 1, position: 4, title: "Reassignment",
            prompt: "The mutable variable x already exists. Give it the value ten.",
            hint_concept: "A mutable binding is updated with the assignment operator.",
            hint_structural: "_ = _ ;", fragment_type: FragmentType::Statement,
            answer: &["x", "=", "10", ";"], xp: 10,
            explanation: "Assignment replaces the value of a mutable binding.", scaffold: "let mut x = 0;" },
        Vec::new(),
        vec![chip("identifiers", &["x", "y"]), chip("symbols", &["=", ";", "+"]), chip("numbers", &["10", "5"])],
    ));
    v.push(challenge(
        Spec { id: "rust-m1-c5", module: 1, position: 5, title: "Printing",
            prompt: "Print the value of x on its own line.",
            hint_concept: "Printing uses a macro with a format string and arguments.",
            hint_structural: "_ ( _ , _ ) ;", fragment_type: FragmentType::Statement,
            answer: &["println!", "(", "\"{}\"", ",", "x", ")", ";"], xp: 10,
            explanation: "println! fills each {} in the format string with an argument.", scaffold: "let x = 5;" },
        Vec::new(),
        vec![chip("macros", &["println!", "format!"]), chip("strings", &["\"{}\"", "\"hello\""]), chip("symbols", &["(", ")", ",", ";"]), chip("identifiers", &["x", "y"])],
    ));
}

fn module_two(v: &mut Vec<Challenge>)
    ensures
        final(v)@.len() == old(v)@.len() + 3,
        final(v)@.subrange(0, old(v)@.len() as int) == old(v)@,
        forall|i: int|
            0 <= i < 3 ==> (#[trigger] final(v)@[old(v)@.len() + i]).id@ == rust_module_challenges(2)[i],
{
    v.push(challenge(
        Spec { id: "rust-m2-c1", module: 2, position: 1, title: "Defining a function",
            prompt: "Write a function add taking two i32 values a and b and returning their sum.",
            hint_concept: "A function lists typed parameters and declares its return type after an arrow.",
            hint_structural: "_ _ ( _ : _ , _ : _ ) -> _ { _ _ _ }", fragment_type: FragmentType::FnDef,
            answer: &["fn", "add", "(", "a", ":", "i32", ",", "b", ":", "i32", ")", "->", "i32", "{", "a", "+", "b", "}"], xp: 20,
            explanation: "The last expression of a function body is its return value.", scaffold: "" },
        Vec::new(),
        vec![chip("keywords", &["fn", "let"]), chip("identifiers", &["add", "a", "b"]), chip("types", &["i32"]), chip("symbols", &["(", ")", ":", ",", "->", "{", "}", "+"])],
    ));
    v.push(challenge(
        Spec { id: "rust-m2-c2", module: 2, position: 2, title: "Calling a function",
            prompt: "Call add with the arguments two and five.",
            hint_concept: "A call names the function and passes arguments in parentheses.",
            hint_structural: "_ ( _ , _ )", fragment_type: FragmentType::Expression,
            answer: &["add", "(", "2", ",", "5", ")"], xp: 20,
            explanation: "Arguments are separated by commas.", scaffold: "fn add(a: i32, b: i32) -> i32 { a + b }" },
        Vec::new(),
        vec![chip("identifiers", &["add", "a"]), chip("symbols", &["(", ")", ","]), chip("numbers", &["2", "5"])],
    ));
    v.push(challenge(
        Spec { id: "rust-m2-c3", module: 2, position: 3, title: "A function without a result",
            prompt: "Write a function greet that takes nothing and prints a greeting.",
            hint_concept: "A function with no return type returns the unit value.",
            hint_structural: "_ _ ( ) { _ ( _ ) ; }", fragment_type: FragmentType::FnDef,
            answer: &["fn", "greet", "(", ")", "{", "println!", "(", "\"hello\"", ")", ";", "}"], xp: 20,
            explanation: "A body of statements ending in a semicolon returns nothing.", scaffold: "" },
        Vec::new(),
        vec![chip("keywords", &["fn"]), chip("identifiers", &["greet"]), chip("macros", &["println!"]), chip("strings", &["\"hello\""]), chip("symbols", &["(", ")", "{", "}", ";"])],
    ));
}

fn module_three(v: &mut Vec<Challenge>)
    ensures
        final(v)@.len() == old(v)@.len() + 3,
        final(v)@.subrange(0, old(v)@.len() as int) == old(v)@,
        forall|i: int|
            0 <= i < 3 ==> (#[trigger] final(v)@[old(v)@.len() + i]).id@ == rust_module_challenges(3)[i],
{
    v.push(challenge(
        Spec { id: "rust-m3-c1", module: 3, position: 1, title: "Branching",
            prompt: "When x is greater than zero, print a message saying so.",
            hint_concept: "A condition needs no parentheses, but the body needs braces.",
            hint_structural: "_ _ > _ { _ ( _ ) ; }", fragment_type: FragmentType::Statement,
            answer: &["if", "x", ">", "0", "{", "println!", "(", "\"positive\"", ")", ";", "}"], xp: 20,
            explanation: "if runs its block only when the condition is true.", scaffold: "let x = 5;" },
        Vec::new(),
        vec![chip("keywords", &["if", "else"]), chip("identifiers", &["x"]), chip("macros", &["println!"]), chip("strings", &["\"positive\""]), chip("symbols", &[">", "(", ")", "{", "}", ";"]), chip("numbers", &["0"])],
    ));
    v.push(challenge(
        Spec { id: "rust-m3-c2", module: 3, position: 2, title: "Loops over ranges",
            prompt: "Loop a variable i from zero up to (not including) three and print each value.",
            hint_concept: "A for loop walks over a range written with two dots.",
            hint_structural: "_ _ _ _ .. _ { _ ( _ , _ ) ; }", fragment_type: FragmentType::Statement,
            answer: &["for", "i", "in", "0", "..", "3", "{", "println!", "(", "\"{}\"", ",", "i", ")", ";", "}"], xp: 20,
            explanation: "A range a..b includes a and stops before b.", scaffold: "" },
        Vec::new(),
        vec![chip("keywords", &["for", "in", "while"]), chip("identifiers", &["i"]), chip("macros", &["println!"]), chip("strings", &["\"{}\""]), chip("symbols", &["..", "(", ")", "{", "}", ",", ";"]), chip("numbers", &["0", "3"])],
    ));
    v.push(challenge(
        Spec { id: "rust-m3-c3", module: 3, position: 3, title: "if as an expression",
            prompt: "Produce one when x equals five and zero otherwise.",
            hint_concept: "Both branches of an if expression give a value of the same type.",
            hint_structural: "_ _ == _ { _ } _ { _ }", fragment_type: FragmentType::Expression,
            answer: &["if", "x", "==", "5", "{", "1", "}", "else", "{", "0", "}"], xp: 20,
            explanation: "if is an expression, so it can produce a value.", scaffold: "let x = 5;" },
        Vec::new(),
        vec![chip("keywords", &["if", "else"]), chip("identifiers", &["x"]), chip("symbols", &["==", "{", "}"]), chip("numbers", &["0", "1", "5"])],
    ));
}

fn module_four(v: &mut Vec<Challenge>)
    ensures
        final(v)@.len() == old(v)@.len() + 3,
        final(v)@.subrange(0, old(v)@.len() as int) == old(v)@,
        forall|i: int|
            0 <= i < 3 ==> (#[trigger] final(v)@[old(v)@.len() + i]).id@ == rust_module_challenges(4)[i],
{
    v.push(challenge(
        Spec { id: "rust-m4-c1", module: 4, position: 1, title: "Defining a struct",
            prompt: "Define a type Point with two i32 fields named x and y.",
            hint_concept: "A struct lists named, typed fields inside braces.",
            hint_structural: "_ _ { _ : _ , _ : _ }", fragment_type: FragmentType::TypeDef,
            answer: &["struct", "Point", "{", "x", ":", "i32", ",", "y", ":", "i32", "}"], xp: 30,
            explanation: "Fields are separated by commas.", scaffold: "" },
        Vec::new(),
        vec![chip("keywords", &["struct", "impl"]), chip("types", &["Point", "i32"]), chip("identifiers", &["x", "y"]), chip("symbols", &["{", "}", ":", ","])],
    ));
    v.push(challenge(
        Spec { id: "rust-m4-c2", module: 4, position: 2, title: "Creating a value",
            prompt: "Bind p to a Point at one, two.",
            hint_concept: "A struct value names each field with its value.",
            hint_structural: "_ _ = _ { _ : _ , _ : _ } ;", fragment_type: FragmentType::Statement,
            answer: &["let", "p", "=", "Point", "{", "x", ":", "1", ",", "y", ":", "2", "}", ";"], xp: 30,
            explanation: "Struct literals repeat the field names.", scaffold: "struct Point { x: i32, y: i32 }" },
        Vec::new(),
        vec![chip("keywords", &["let"]), chip("types", &["Point"]), chip("identifiers", &["p", "x", "y"]), chip("symbols", &["=", "{", "}", ":", ",", ";"]), chip("numbers", &["1", "2"])],
    ));
    v.push(challenge(
        Spec { id: "rust-m4-c3", module: 4, position: 3, title: "A whole program",
            prompt: "Write a main function that builds a vector v of one and two.",
            hint_concept: "Every program starts at main; vec! builds a vector.",
            hint_structural: "_ _ ( ) { _ _ = _ [ _ , _ ] ; }", fragment_type: FragmentType::Program,
            answer: &["fn", "main", "(", ")", "{", "let", "v", "=", "vec!", "[", "1", ",", "2", "]", ";", "}"], xp: 30,
            explanation: "A program is a set of items with a main function.", scaffold: "" },
        Vec::new(),
        vec![chip("keywords", &["fn", "let"]), chip("identifiers", &["main", "v"]), chip("macros", &["vec!"]), chip("symbols", &["(", ")", "{", "}", "=", "[", "]", ",", ";"]), chip("numbers", &["1", "2"])],
    ));
}

/// The embedded Rust language pack.
pub fn rust_pack() -> (p: LanguagePack)
    ensures
        is_rust_pack(p),
{
    let mut challenges: Vec<Challenge> = Vec::new();
    module_one(&mut challenges);
    let ghost c1 = challenges@;
    module_two(&mut challenges);
    let ghost c2 = challenges@;
    module_three(&mut challenges);
    let ghost c3 = challenges@;
    module_four(&mut challenges);
    proof {
        let c4 = challenges@;
        assert forall|i: int| 0 <= i < 14 implies (#[trigger] c4[i]).id@ == rust_challenge_id(i) by {
            if i < 5 {
                assert(c1[0 + i].id@ == rust_module_challenges(1)[i]);
                assert(c2.subrange(0, 5)[i] == c1[i]);
                assert(c3.subrange(0, 8)[i] == c2[i]);
                assert(c4.subrange(0, 11)[i] == c3[i]);
            } else if i < 8 {
                assert(c2[5 + (i - 5)].id@ == rust_module_challenges(2)[i - 5]);
                assert(c3.subrange(0, 8)[i] == c2[i]);
                assert(c4.subrange(0, 11)[i] == c3[i]);
            } else if i < 11 {
                assert(c3[8 + (i - 8)].id@ == rust_module_challenges(3)[i - 8]);
                assert(c4.subrange(0, 11)[i] == c3[i]);
            } else {
                assert(c4[11 + (i - 11)].id@ == rust_module_challenges(4)[i - 11]);
            }
        }
    }
    LanguagePack {
        metadata: LanguageMetadata {
            id: owned("rust"),
            display_name: owned("Rust"),
            version: owned("1.0.0"),
            status: LanguageStatus::Available,
            primary_hue: owned("#f5a623"),
            icon: owned("\u{1F980}"),
            tagline: owned("Fast, safe systems programming"),
        },
        categories: categories(),
        context_rules: context_rules(),
        syntax_colors: syntax_colors(),
        modules: modules(),
        challenges,
    }
}

} // verus!
