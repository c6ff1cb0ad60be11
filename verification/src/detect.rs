//! Recognising the installation directory of known software in a path.
use crate::text::{
    chars_of, contains, contains_seq, join_first, join_seq, lowercase, lowercase_of, replace,
    replace_seq, rows, split, split_seq, string_of, texts,
};
use vstd::prelude::*;

verus! {

/// One line of the signature table: the variable that stands for a piece of
/// software, and the literal substrings by which its paths are recognised.
pub struct Signature {
    pub var_name: &'static str,
    pub needles: Vec<String>,
}

pub struct SignatureView {
    pub var_name: Seq<char>,
    pub needles: Seq<Seq<char>>,
}

impl View for Signature {
    type V = SignatureView;

    open spec fn view(&self) -> SignatureView {
        SignatureView { var_name: self.var_name@, needles: texts(self.needles@) }
    }
}

/// The views of a table of signatures.
pub open spec fn signatures(v: Seq<Signature>) -> Seq<SignatureView> {
    v.map_values(|s: Signature| s@)
}

/// The views of a list of templates.
pub open spec fn templates(v: Seq<&'static str>) -> Seq<Seq<char>> {
    v.map_values(|t: &'static str| t@)
}

/// A lowercased template reduced to a literal: the class of the two path
/// separators becomes a backslash, and the digit wildcard disappears.
/// Whatever else the template holds stays and is matched letter for letter.
pub open spec fn strip_syntax(lowered: Seq<char>) -> Seq<char> {
    replace_seq(replace_seq(lowered, "[\\\\/]"@, "\\"@), "\\d+"@, ""@)
}

/// The literal substring that a template is matched by.
pub open spec fn needle_of(template: Seq<char>) -> Seq<char> {
    strip_syntax(lowercase_of(template))
}

/// The table line for `name` with the given templates.
pub open spec fn signature_of(name: Seq<char>, patterns: Seq<Seq<char>>) -> SignatureView {
    SignatureView { var_name: name, needles: patterns.map_values(|t: Seq<char>| needle_of(t)) }
}

/// The table of known software, in the order in which it is searched.
pub open spec fn known_signatures() -> Seq<SignatureView> {
    seq![
        signature_of("JAVA_HOME"@, seq!["java[\\\\/]jdk"@, "java.*[\\\\/]bin"@]),
        signature_of("PYTHON_HOME"@, seq!["Python3\\d+"@, "python"@]),
        signature_of("NODE_HOME"@, seq!["nodejs"@, "node"@]),
        signature_of("MAVEN_HOME"@, seq!["apache-maven"@, "maven"@]),
        signature_of("GIT_HOME"@, seq!["Git[\\\\/]cmd"@, "git"@]),
        signature_of("MATLAB_HOME"@, seq!["MATLAB[\\\\/]R\\d+"@]),
        signature_of("GRADLE_HOME"@, seq!["gradle"@]),
        signature_of("CUDA_HOME"@, seq!["CUDA[\\\\/]v\\d+"@]),
    ]
}

/// Whether one of the signature's literals stands in the lowercased path.
pub open spec fn signature_matches(lowered: Seq<char>, sig: SignatureView) -> bool {
    exists|j: int| 0 <= j < sig.needles.len() && contains_seq(lowered, #[trigger] sig.needles[j])
}

/// The first line of the table, from `from` on, that matches.
pub open spec fn first_match_from(lowered: Seq<char>, table: Seq<SignatureView>, from: int) -> Option<
    int,
>
    decreases table.len() - from,
{
    if from < 0 || from >= table.len() {
        None
    } else if signature_matches(lowered, table[from]) {
        Some(from)
    } else {
        first_match_from(lowered, table, from + 1)
    }
}

/// The two characters that separate the components of a path.
pub open spec fn component_separators() -> Seq<char> {
    seq!['\\', '/']
}

/// The components of a path.
pub open spec fn components(path: Seq<char>) -> Seq<Seq<char>> {
    split_seq(path, component_separators())
}

/// The path without its last component, its other components joined by
/// backslashes.
pub open spec fn base_directory(path: Seq<char>) -> Seq<char> {
    join_seq(components(path).drop_last(), seq!['\\'])
}

/// The last component of a path.
pub open spec fn last_component(path: Seq<char>) -> Seq<char> {
    components(path).last()
}

/// What detection gives for a path, its lowercase form and a table: the
/// variable of the first matching line and the path's base directory. A
/// path of a single component is never detected.
pub open spec fn detected(path: Seq<char>, lowered: Seq<char>, table: Seq<SignatureView>) -> Option<
    (Seq<char>, Seq<char>),
> {
    match first_match_from(lowered, table, 0) {
        Some(k) => if components(path).len() >= 2 {
            Some((table[k].var_name, base_directory(path)))
        } else {
            None
        },
        None => None,
    }
}

/// Reduces a lowercased template to the literal it is matched by.
pub fn literal_of(lowered: &str) -> (r: String)
    ensures
        r@ == strip_syntax(lowered@),
{
    let text: Vec<char> = chars_of(lowered);
    let class: Vec<char> = chars_of("[\\\\/]");
    let backslash: Vec<char> = chars_of("\\");
    let digits: Vec<char> = chars_of("\\d+");
    let nothing: Vec<char> = chars_of("");
    let first: Vec<char> = replace(&text, &class, &backslash);
    let second: Vec<char> = replace(&first, &digits, &nothing);
    string_of(&second)
}

/// The literal that `template` is matched by: its lowercase form, reduced.
pub fn normalize_pattern(template: &str) -> (r: String)
    ensures
        r@ == needle_of(template@),
{
    let lowered: String = lowercase(template);
    literal_of(lowered.as_str())
}

fn signature(name: &'static str, patterns: Vec<&'static str>) -> (r: Signature)
    ensures
        r@ == signature_of(name@, templates(patterns@)),
{
    let mut needles: Vec<String> = Vec::new();
    let mut i: usize = 0;
    while i < patterns.len()
        invariant
            i <= patterns@.len(),
            needles@.len() == i,
            forall|k: int| 0 <= k < i ==> (#[trigger] needles@[k])@ == needle_of(patterns@[k]@),
        decreases patterns.len() - i,
    {
        let needle: String = normalize_pattern(patterns[i]);
        needles.push(needle);
        i += 1;
    }
    assert(texts(needles@) =~= signature_of(name@, templates(patterns@)).needles);
    Signature { var_name: name, needles }
}

/// Builds the table of known software.
pub fn software_signatures() -> (r: Vec<Signature>)
    ensures
        signatures(r@) == known_signatures(),
{
    let java: Vec<&'static str> = vec!["java[\\\\/]jdk", "java.*[\\\\/]bin"];
    let python: Vec<&'static str> = vec!["Python3\\d+", "python"];
    let node: Vec<&'static str> = vec!["nodejs", "node"];
    let maven: Vec<&'static str> = vec!["apache-maven", "maven"];
    let git: Vec<&'static str> = vec!["Git[\\\\/]cmd", "git"];
    let matlab: Vec<&'static str> = vec!["MATLAB[\\\\/]R\\d+"];
    let gradle: Vec<&'static str> = vec!["gradle"];
    let cuda: Vec<&'static str> = vec!["CUDA[\\\\/]v\\d+"];
    proof {
        assert(templates(java@) =~= seq!["java[\\\\/]jdk"@, "java.*[\\\\/]bin"@]);
        assert(templates(python@) =~= seq!["Python3\\d+"@, "python"@]);
        assert(templates(node@) =~= seq!["nodejs"@, "node"@]);
        assert(templates(maven@) =~= seq!["apache-maven"@, "maven"@]);
        assert(templates(git@) =~= seq!["Git[\\\\/]cmd"@, "git"@]);
        assert(templates(matlab@) =~= seq!["MATLAB[\\\\/]R\\d+"@]);
        assert(templates(gradle@) =~= seq!["gradle"@]);
        assert(templates(cuda@) =~= seq!["CUDA[\\\\/]v\\d+"@]);
    }
    let table: Vec<Signature> = vec![
        signature("JAVA_HOME", java),
        signature("PYTHON_HOME", python),
        signature("NODE_HOME", node),
        signature("MAVEN_HOME", maven),
        signature("GIT_HOME", git),
        signature("MATLAB_HOME", matlab),
        signature("GRADLE_HOME", gradle),
        signature("CUDA_HOME", cuda),
    ];
    assert(signatures(table@) =~= known_signatures());
    table
}

/// Whether one of the signature's literals stands in `lowered`.
pub fn matches_signature(lowered: &Vec<char>, sig: &Signature) -> (r: bool)
    ensures
        r == signature_matches(lowered@, sig@),
{
    let mut j: usize = 0;
    while j < sig.needles.len()
        invariant
            j <= sig.needles@.len(),
            forall|k: int| 0 <= k < j ==> !contains_seq(lowered@, #[trigger] sig@.needles[k]),
        decreases sig.needles.len() - j,
    {
        let needle: Vec<char> = chars_of(sig.needles[j].as_str());
        assert(sig@.needles[j as int] == needle@);
        if contains(lowered, &needle) {
            return true;
        }
        j += 1;
    }
    false
}

/// Matches a path against a table of signatures. `lowered` is the path in
/// lowercase; the first line of the table with a literal that stands in it
/// decides. The base directory is taken from `path` itself.
pub fn match_signatures(path: &str, lowered: &str, table: &Vec<Signature>) -> (r: Option<
    (&'static str, String),
>)
    ensures
        match r {
            Some(p) => detected(path@, lowered@, signatures(table@)) == Some((p.0@, p.1@)),
            None => detected(path@, lowered@, signatures(table@)).is_none(),
        },
{
    let haystack: Vec<char> = chars_of(lowered);
    let ghost specs = signatures(table@);
    let mut k: usize = 0;
    while k < table.len()
        invariant
            k <= table@.len(),
            specs == signatures(table@),
            haystack@ == lowered@,
            first_match_from(haystack@, specs, 0) == first_match_from(haystack@, specs, k as int),
        decreases table.len() - k,
    {
        assert(specs[k as int] == table@[k as int]@);
        if matches_signature(&haystack, &table[k]) {
            let text: Vec<char> = chars_of(path);
            let seps: Vec<char> = vec!['\\', '/'];
            assert(seps@ =~= component_separators());
            let parts: Vec<Vec<char>> = split(&text, &seps);
            if parts.len() >= 2 {
                let sep: Vec<char> = vec!['\\'];
                assert(sep@ =~= seq!['\\']);
                let base: Vec<char> = join_first(&parts, parts.len() - 1, &sep);
                assert(rows(parts@).take(parts@.len() - 1) =~= rows(parts@).drop_last());
                let name: &'static str = table[k].var_name;
                let dir: String = string_of(&base);
                return Some((name, dir));
            }
            return None;
        }
        k += 1;
    }
    None
}

/// Recognises known software in a raw path segment: the variable that
/// stands for it, and the directory that the variable should hold.
pub fn detect_software(path: &str) -> (r: Option<(&'static str, String)>)
    ensures
        match r {
            Some(p) => detected(path@, lowercase_of(path@), known_signatures()) == Some(
                (p.0@, p.1@),
            ),
            None => detected(path@, lowercase_of(path@), known_signatures()).is_none(),
        },
{
    let lowered: String = lowercase(path);
    let table: Vec<Signature> = software_signatures();
    match_signatures(path, lowered.as_str(), &table)
}

} // verus!
