//! The two operations on a whole PATH string: the report on its segments,
//! and the suggestions for replacing raw paths by variable references.
use crate::detect::{
    component_separators, detect_software, detected, known_signatures, last_component,
};
use crate::expand::{find_value, has_token, holds_token, lookup, pairs};
use crate::parse::{parse_path, parse_seq};
use crate::text::{
    appended, chars_of, lowercase_of, replace, replace_seq, rows, split, string_of, texts,
};
use vstd::prelude::*;

verus! {

/// One segment of a PATH string, with what is known of it.
#[derive(Debug, PartialEq, Eq)]
pub struct PathEntry {
    /// The segment as it stands in the string, trimmed.
    pub path: String,
    /// Whether the expanded segment exists on disk.
    pub valid: bool,
    /// Whether the segment holds a `%NAME%` token, and so refers to a
    /// variable. A single percent sign is no token; `%%` is one.
    pub has_variable: bool,
}

pub struct PathEntryView {
    pub path: Seq<char>,
    pub valid: bool,
    pub has_variable: bool,
}

impl View for PathEntry {
    type V = PathEntryView;

    open spec fn view(&self) -> PathEntryView {
        PathEntryView { path: self.path@, valid: self.valid, has_variable: self.has_variable }
    }
}

/// A proposal to write one segment of a PATH string with a variable.
#[derive(Debug, PartialEq, Eq)]
pub struct OptimizationSuggestion {
    pub suggestion_type: String,
    pub var_name: String,
    pub var_value: String,
    pub old_path: String,
    pub new_path: String,
    pub description: String,
}

pub struct SuggestionView {
    pub suggestion_type: Seq<char>,
    pub var_name: Seq<char>,
    pub var_value: Seq<char>,
    pub old_path: Seq<char>,
    pub new_path: Seq<char>,
    pub description: Seq<char>,
}

impl View for OptimizationSuggestion {
    type V = SuggestionView;

    open spec fn view(&self) -> SuggestionView {
        SuggestionView {
            suggestion_type: self.suggestion_type@,
            var_name: self.var_name@,
            var_value: self.var_value@,
            old_path: self.old_path@,
            new_path: self.new_path@,
            description: self.description@,
        }
    }
}

impl PathEntry {
    /// What holds of every entry of a report: its path is not empty, and
    /// `has_variable` says whether the path holds a token.
    pub open spec fn well_formed(&self) -> bool {
        self.path@.len() > 0 && self.has_variable == has_token(self.path@)
    }
}

/// The views of a list of entries.
pub open spec fn entry_views(v: Seq<PathEntry>) -> Seq<PathEntryView> {
    v.map_values(|e: PathEntry| e@)
}

/// The views of a list of suggestions.
pub open spec fn suggestion_views(v: Seq<OptimizationSuggestion>) -> Seq<SuggestionView> {
    v.map_values(|s: OptimizationSuggestion| s@)
}

/// The entry for a segment that was found to exist, or not.
pub open spec fn entry_of(segment: Seq<char>, valid: bool) -> PathEntryView {
    PathEntryView { path: segment, valid, has_variable: has_token(segment) }
}

/// One entry for each segment, in order, with the validity found for it.
pub open spec fn entries_of(segments: Seq<Seq<char>>, validity: Seq<bool>) -> Seq<PathEntryView> {
    Seq::new(segments.len(), |i: int| entry_of(segments[i], validity[i]))
}

/// The name of the software that a variable stands for: the variable's name
/// without `_HOME`.
pub open spec fn software_name(var_name: Seq<char>) -> Seq<char> {
    replace_seq(var_name, "_HOME"@, ""@)
}

/// The suggestion to write `segment` with the variable `var_name`, which is
/// to hold `base`.
pub open spec fn suggestion_of(segment: Seq<char>, var_name: Seq<char>, base: Seq<char>) -> SuggestionView {
    SuggestionView {
        suggestion_type: "software"@,
        var_name: var_name,
        var_value: base,
        old_path: segment,
        new_path: seq!['%'] + var_name + seq!['%', '\\'] + last_component(segment),
        description: "检测到 "@ + software_name(var_name) + " 安装路径"@,
    }
}

/// What a segment contributes, given what was detected in it: nothing where
/// it already refers to a variable, where nothing was detected, or where the
/// detected variable is already defined; else one suggestion.
pub open spec fn suggestion_for(
    segment: Seq<char>,
    detection: Option<(Seq<char>, Seq<char>)>,
    existing: Seq<(Seq<char>, Seq<char>)>,
) -> Option<SuggestionView> {
    match detection {
        Some(found) => if has_token(segment) || lookup(existing, found.0).is_some() {
            None
        } else {
            Some(suggestion_of(segment, found.0, found.1))
        },
        None => None,
    }
}

/// What is detected in a segment against the table of known software.
pub open spec fn detection_in(segment: Seq<char>) -> Option<(Seq<char>, Seq<char>)> {
    detected(segment, lowercase_of(segment), known_signatures())
}

/// The suggestions for a list of segments, in the order of the segments.
pub open spec fn suggestions_of(segments: Seq<Seq<char>>, existing: Seq<(Seq<char>, Seq<char>)>) -> Seq<
    SuggestionView,
>
    decreases segments.len(),
{
    if segments.len() == 0 {
        Seq::<SuggestionView>::empty()
    } else {
        let init = suggestions_of(segments.drop_last(), existing);
        match suggestion_for(segments.last(), detection_in(segments.last()), existing) {
            Some(s) => init.push(s),
            None => init,
        }
    }
}

/// No suggestion is made for a segment that refers to a variable, nor for
/// a variable that is already defined: every suggestion for a list of
/// segments rewrites a segment without a token, with a variable
/// that `existing` does not define.
pub proof fn lemma_suggestions_uncovered(segments: Seq<Seq<char>>, existing: Seq<(Seq<char>, Seq<char>)>)
    ensures
        forall|i: int|
            0 <= i < suggestions_of(segments, existing).len() ==> {
                let s = #[trigger] suggestions_of(segments, existing)[i];
                !has_token(s.old_path) && lookup(existing, s.var_name).is_none()
            },
    decreases segments.len(),
{
    if segments.len() > 0 {
        lemma_suggestions_uncovered(segments.drop_last(), existing);
        let init = suggestions_of(segments.drop_last(), existing);
        let all = suggestions_of(segments, existing);
        assert forall|i: int| 0 <= i < all.len() implies {
            let s = #[trigger] all[i];
            !has_token(s.old_path) && lookup(existing, s.var_name).is_none()
        } by {
            if i < init.len() {
                assert(all[i] == init[i]);
            }
        }
    }
}

/// A segment with a token, or one whose detected variable is
/// defined, contributes no suggestion, whatever was detected in it.
pub proof fn lemma_no_suggestion_when_covered(
    segment: Seq<char>,
    detection: Option<(Seq<char>, Seq<char>)>,
    existing: Seq<(Seq<char>, Seq<char>)>,
)
    requires
        has_token(segment) || (detection matches Some(found) && lookup(existing, found.0).is_some()),
    ensures
        suggestion_for(segment, detection, existing).is_none(),
{
}

/// Reports on each segment of `path_string`. `validity` holds, for each
/// segment in order, whether the segment, once expanded, exists on disk.
/// Where it does not hold one value for each segment, there is no report.
pub fn analyze_path(path_string: String, validity: Vec<bool>) -> (r: Result<Vec<PathEntry>, String>)
    ensures
        match r {
            Ok(entries) => validity@.len() == parse_seq(path_string@).len() && entry_views(
                entries@,
            ) == entries_of(parse_seq(path_string@), validity@) && forall|i: int|
                0 <= i < entries@.len() ==> (#[trigger] entries@[i]).well_formed(),
            Err(message) => validity@.len() != parse_seq(path_string@).len() && message@
                == "validity does not match the segments"@,
        },
{
    let segments: Vec<String> = parse_path(path_string.as_str());
    let ghost parsed = texts(segments@);
    assert(parsed.len() == segments@.len());
    if validity.len() != segments.len() {
        return Err("validity does not match the segments".to_string());
    }
    let mut entries: Vec<PathEntry> = Vec::new();
    let mut i: usize = 0;
    while i < segments.len()
        invariant
            i <= segments@.len(),
            validity@.len() == segments@.len(),
            parsed == texts(segments@),
            entries@.len() == i,
            forall|k: int| 0 <= k < segments@.len() ==> (#[trigger] segments@[k])@.len() > 0,
            forall|k: int|
                0 <= k < i ==> (#[trigger] entries@[k])@ == entry_of(parsed[k], validity@[k])
                    && entries@[k].well_formed(),
        decreases segments.len() - i,
    {
        let path: String = segments[i].clone();
        let chars: Vec<char> = chars_of(path.as_str());
        let has_variable: bool = holds_token(&chars);
        assert(path@ == parsed[i as int]);
        entries.push(PathEntry { path, valid: validity[i], has_variable });
        i += 1;
    }
    assert(entry_views(entries@) =~= entries_of(parsed, validity@));
    Ok(entries)
}

/// Builds the suggestion for a segment in which `var_name` was detected
/// with the base directory `base`.
pub fn make_suggestion(segment: &str, var_name: &str, base: String) -> (r: OptimizationSuggestion)
    ensures
        r@ == suggestion_of(segment@, var_name@, base@),
{
    let text: Vec<char> = chars_of(segment);
    let name: Vec<char> = chars_of(var_name);
    let seps: Vec<char> = vec!['\\', '/'];
    let parts: Vec<Vec<char>> = split(&text, &seps);
    proof {
        assert(seps@ =~= component_separators());
        assert(rows(parts@).last() == parts@[parts@.len() - 1]@);
    }
    let open: Vec<char> = vec!['%'];
    let close: Vec<char> = vec!['%', '\\'];
    let new_path: Vec<char> = appended(&appended(&appended(&open, &name), &close), &parts[parts.len() - 1]);
    let software: Vec<char> = replace(&name, &chars_of("_HOME"), &chars_of(""));
    let description: Vec<char> = appended(
        &appended(&chars_of("检测到 "), &software),
        &chars_of(" 安装路径"),
    );
    proof {
        assert(open@ =~= seq!['%']);
        assert(close@ =~= seq!['%', '\\']);
    }
    OptimizationSuggestion {
        suggestion_type: "software".to_string(),
        var_name: string_of(&name),
        var_value: base,
        old_path: string_of(&text),
        new_path: string_of(&new_path),
        description: string_of(&description),
    }
}

/// Decides what a segment contributes, given what was detected in it and
/// the variables that are already defined.
pub fn suggest_for_segment(
    segment: &str,
    detection: Option<(&'static str, String)>,
    existing_vars: &Vec<(String, String)>,
) -> (r: Option<OptimizationSuggestion>)
    ensures
        match r {
            Some(s) => suggestion_for(
                segment@,
                match detection {
                    Some(p) => Some((p.0@, p.1@)),
                    None => None,
                },
                pairs(existing_vars@),
            ) == Some(s@),
            None => suggestion_for(
                segment@,
                match detection {
                    Some(p) => Some((p.0@, p.1@)),
                    None => None,
                },
                pairs(existing_vars@),
            ).is_none(),
        },
{
    match detection {
        Some((var_name, base)) => {
            let text: Vec<char> = chars_of(segment);
            if holds_token(&text) {
                return None;
            }
            let name: Vec<char> = chars_of(var_name);
            if find_value(existing_vars, &name).is_some() {
                return None;
            }
            Some(make_suggestion(segment, var_name, base))
        },
        None => None,
    }
}

/// Proposes, for each segment of `path_string` in which known software is
/// detected, to write it with that software's variable, unless the segment
/// already refers to a variable or `existing_vars` already defines the one
/// detected.
pub fn suggest_optimizations(path_string: String, existing_vars: Vec<(String, String)>) -> (r: Result<
    Vec<OptimizationSuggestion>,
    String,
>)
    ensures
        r matches Ok(list) && suggestion_views(list@) == suggestions_of(
            parse_seq(path_string@),
            pairs(existing_vars@),
        ) && forall|i: int|
            0 <= i < list@.len() ==> !has_token((#[trigger] list@[i])@.old_path) && lookup(
                pairs(existing_vars@),
                list@[i]@.var_name,
            ).is_none(),
{
    let segments: Vec<String> = parse_path(path_string.as_str());
    let ghost parsed = texts(segments@);
    let ghost existing = pairs(existing_vars@);
    let mut list: Vec<OptimizationSuggestion> = Vec::new();
    let mut i: usize = 0;
    assert(parsed.take(0) =~= Seq::<Seq<char>>::empty());
    while i < segments.len()
        invariant
            i <= segments@.len(),
            parsed == texts(segments@),
            existing == pairs(existing_vars@),
            suggestion_views(list@) == suggestions_of(parsed.take(i as int), existing),
            forall|k: int|
                0 <= k < list@.len() ==> !has_token((#[trigger] list@[k])@.old_path) && lookup(
                    existing,
                    list@[k]@.var_name,
                ).is_none(),
        decreases segments.len() - i,
    {
        let segment: &str = segments[i].as_str();
        let ghost before = suggestion_views(list@);
        proof {
            assert(parsed.take(i + 1).drop_last() =~= parsed.take(i as int));
            assert(parsed.take(i + 1).last() == segment@);
        }
        let text: Vec<char> = chars_of(segment);
        if !holds_token(&text) {
            let detection: Option<(&'static str, String)> = detect_software(segment);
            match suggest_for_segment(segment, detection, &existing_vars) {
                Some(s) => {
                    list.push(s);
                    assert(suggestion_views(list@) =~= before.push(s@));
                },
                None => {},
            }
        }
        i += 1;
    }
    assert(parsed.take(segments@.len() as int) =~= parsed);
    Ok(list)
}

} // verus!
