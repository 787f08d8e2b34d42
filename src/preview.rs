//! The dry run: what a rule would make of each file, with conflicts and
//! illegal characters flagged, without touching the disk.

use vstd::prelude::*;
use crate::rules::{detect_conflicts, has_invalid_chars, holds_forbidden, in_conflict, views, PreviewResult, RenameRule};
use crate::paths::{base_name, base_name_of};

verus! {

/// The name a file is proposed to take: the rule's result, or its own name
/// when the rule fails on it.
pub open spec fn candidate(rule: RenameRule, name: Seq<char>, index: int) -> Seq<char> {
    match rule.apply_spec(name, index) {
        Ok(n) => n,
        Err(_) => name,
    }
}

/// The proposed names of a whole batch of file names.
pub open spec fn candidates(rule: RenameRule, names: Seq<Seq<char>>) -> Seq<Seq<char>> {
    Seq::new(names.len(), |k: int| candidate(rule, names[k], k))
}

/// What the preview of file `index`, named `name`, reports apart from conflicts.
pub open spec fn previews_as(res: PreviewResult, rule: RenameRule, name: Seq<char>, index: int) -> bool {
    &&& res.original_name@ == name
    &&& match rule.apply_spec(name, index) {
        Ok(n) => {
            &&& res.new_name@ == n
            &&& res.has_invalid_chars == holds_forbidden(n)
            &&& res.error_message is None
        },
        Err(e) => {
            &&& res.new_name@ == name
            &&& !res.has_invalid_chars
            &&& res.error_message matches Some(m) && m@ == e
        },
    }
}

/// The full preview of a batch of file names under a valid rule.
pub open spec fn preview_of(r: Seq<PreviewResult>, rule: RenameRule, names: Seq<Seq<char>>) -> bool {
    &&& r.len() == names.len()
    &&& forall|i: int| 0 <= i < names.len() ==> previews_as(#[trigger] r[i], rule, names[i], i)
    &&& forall|i: int| 0 <= i < names.len() ==> (#[trigger] r[i]).has_conflict
        == in_conflict(candidates(rule, names), i)
}

/// Previews a rule over bare file names; `names[i]` stands at position `i`.
pub fn preview_names(names: &Vec<String>, rule: &RenameRule) -> (r: Result<Vec<PreviewResult>, String>)
    ensures
        r is Ok <==> rule.valid(),
        r matches Err(e) ==> Some(e@) == rule.validation_error(),
        r matches Ok(v) ==> preview_of(v@, *rule, views(names@)),
{
    if let Err(e) = rule.validate() {
        return Err(e);
    }
    let ghost ns = views(names@);
    let mut results: Vec<PreviewResult> = Vec::new();
    let mut new_names: Vec<String> = Vec::new();
    let mut i: usize = 0;
    while i < names.len()
        invariant
            i <= names.len(),
            ns == views(names@),
            results.len() == i,
            new_names.len() == i,
            forall|k: int| 0 <= k < i ==> previews_as(#[trigger] results@[k], *rule, ns[k], k),
            forall|k: int| 0 <= k < i ==> (#[trigger] new_names@[k])@ == candidate(*rule, ns[k], k),
            forall|k: int| 0 <= k < i ==> !(#[trigger] results@[k]).has_conflict,
        decreases names.len() - i,
    {
        let original_name = names[i].clone();
        match rule.apply_to_filename(original_name.as_str(), i) {
            Ok(new_name) => {
                let invalid = has_invalid_chars(new_name.as_str());
                new_names.push(new_name.clone());
                results.push(PreviewResult {
                    original_name,
                    new_name,
                    has_conflict: false,
                    has_invalid_chars: invalid,
                    error_message: None,
                });
            },
            Err(e) => {
                new_names.push(original_name.clone());
                results.push(PreviewResult {
                    original_name: original_name.clone(),
                    new_name: original_name,
                    has_conflict: false,
                    has_invalid_chars: false,
                    error_message: Some(e),
                });
            },
        }
        i = i + 1;
    }
    let conflicts = detect_conflicts(new_names.as_slice());
    assert(views(new_names@) =~= candidates(*rule, ns));
    let mut k: usize = 0;
    while k < results.len()
        invariant
            results.len() == names.len() == conflicts.len(),
            k <= results.len(),
            forall|m: int| 0 <= m < conflicts.len() ==> conflicts[m] == in_conflict(candidates(*rule, ns), m),
            forall|m: int| 0 <= m < names.len() ==> previews_as(#[trigger] results@[m], *rule, ns[m], m),
            forall|m: int| 0 <= m < k ==> (#[trigger] results@[m]).has_conflict == conflicts[m],
        decreases results.len() - k,
    {
        results[k].has_conflict = conflicts[k];
        k = k + 1;
    }
    Ok(results)
}

/// Previews a rule over file paths: each file is known by the final segment
/// of its path, and its position in `files` is its index in the batch.
pub fn preview_rename(files: &Vec<String>, rule: &RenameRule) -> (r: Result<Vec<PreviewResult>, String>)
    ensures
        r is Ok <==> rule.valid(),
        r matches Err(e) ==> Some(e@) == rule.validation_error(),
        r matches Ok(v) ==> preview_of(v@, *rule, views(files@).map_values(|p: Seq<char>| base_name(p))),
{
    let mut names: Vec<String> = Vec::new();
    let mut i: usize = 0;
    while i < files.len()
        invariant
            i <= files.len(),
            names.len() == i,
            forall|k: int| 0 <= k < i ==> (#[trigger] names@[k])@ == base_name(files@[k]@),
        decreases files.len() - i,
    {
        names.push(base_name_of(files[i].as_str()));
        i = i + 1;
    }
    assert(views(names@) =~= views(files@).map_values(|p: Seq<char>| base_name(p)));
    preview_names(&names, rule)
}

} // verus!
