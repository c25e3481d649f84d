use vstd::prelude::*;

use crate::deps::field;
use crate::json::{copy_json, entries_model, lemma_object_model, Json, JsonValue};
use crate::paths::texts;
use crate::text::{chars_of, contains_char, copy_string, push_string, string_of};

verus! {

// ---------------------------------------------------------------------------
// Where the tracking data comes from
// ---------------------------------------------------------------------------

/// What is read from a configuration.
#[derive(PartialEq, Eq, Structural, Clone, Copy, Debug)]
pub enum Wanted {
    /// The configuration values (only the explicitly defined ones when `explicit`).
    Values { explicit: bool },
    /// The dependency listing.
    Deps,
    /// Both, in one evaluation.
    Combined { explicit: bool },
}

/// How to get what is wanted.
pub enum Plan {
    /// Read this file of the configuration's directory.
    ReadFile { name: String },
    /// Announce `header`, then evaluate each reference in turn with `nix eval`
    /// (applying `apply` when given) until one succeeds; when none does, fail
    /// with `failure`.
    Evaluate { header: String, refs: Vec<String>, apply: Option<String>, failure: String },
}

/// The model of a plan.
pub enum PlanV {
    ReadFile { name: Seq<char> },
    Evaluate { header: Seq<char>, refs: Seq<Seq<char>>, apply: Option<Seq<char>>, failure: Seq<char> },
}

impl Plan {
    pub open spec fn model(&self) -> PlanV {
        match self {
            Plan::ReadFile { name } => PlanV::ReadFile { name: name@ },
            Plan::Evaluate { header, refs, apply, failure } => PlanV::Evaluate {
                header: header@,
                refs: texts(refs@),
                apply: match apply {
                    Some(a) => Some(a@),
                    None => None,
                },
                failure: failure@,
            },
        }
    }
}

/// The index of the first `#` in `s`.
pub open spec fn hash_at(s: Seq<char>) -> int
    decreases s.len(),
{
    if s.len() == 0 {
        0
    } else if s[0] == '#' {
        0
    } else {
        1 + hash_at(s.drop_first())
    }
}

pub proof fn lemma_hash_at(s: Seq<char>)
    requires
        s.contains('#'),
    ensures
        0 <= hash_at(s) < s.len(),
        s[hash_at(s)] == '#',
        forall|k: int| 0 <= k < hash_at(s) ==> s[k] != '#',
    decreases s.len(),
{
    if s[0] != '#' {
        let k = choose|k: int| 0 <= k < s.len() && s[k] == '#';
        assert(s.drop_first()[k - 1] == '#');
        lemma_hash_at(s.drop_first());
        assert forall|j: int| 0 <= j < hash_at(s) implies s[j] != '#' by {
            if j > 0 {
                assert(s[j] == s.drop_first()[j - 1]);
            }
        }
    }
}

/// The file of the configuration's directory that holds what is wanted.
pub open spec fn file_name(w: Wanted) -> Seq<char> {
    match w {
        Wanted::Values { explicit } => if explicit {
            "tracking-explicit.json"@
        } else {
            "tracking.json"@
        },
        Wanted::Deps => "tracking-deps.json"@,
        Wanted::Combined { explicit } => if explicit {
            "tracking-explicit.json"@
        } else {
            "tracking.json"@
        },
    }
}

/// The attribute of the tracking data that holds the values.
pub open spec fn values_field(explicit: bool) -> Seq<char> {
    if explicit {
        "explicitConfigValues"@
    } else {
        "configValues"@
    }
}

/// The attribute path below `dependencyTracking` that is evaluated.
pub open spec fn tracked_suffix(w: Wanted) -> Seq<char> {
    match w {
        Wanted::Values { explicit } => ".dependencyTracking."@ + values_field(explicit),
        Wanted::Deps => ".dependencyTracking.filteredDeps"@,
        Wanted::Combined { .. } => ".dependencyTracking"@,
    }
}

/// The function applied to the tracking data to get both parts at once.
pub open spec fn combined_apply(explicit: bool) -> Seq<char> {
    "t: { configValues = t."@ + values_field(explicit) + "; filteredDeps = t.filteredDeps; }"@
}

/// The message for an argument that is neither a directory nor a flake reference.
pub open spec fn not_found_note(arg: Seq<char>) -> Seq<char> {
    "'"@ + arg + "' is not an existing directory or flake reference (flake refs must contain '#')"@
}

/// The message when no reference could be evaluated.
pub open spec fn failure_note(arg: Seq<char>, w: Wanted) -> Seq<char> {
    (if w == Wanted::Deps {
        "Could not evaluate dependency data for '"@
    } else {
        "Could not evaluate tracking data for '"@
    }) + arg
        + "'.\nMake sure the flake's nixosSystem is called with trackDependencies = true\nand uses a nixpkgs that supports dependency tracking."@
}

/// The plan for an argument: a directory is read; a flake reference
/// `flake#attr` is evaluated, first as the NixOS configuration `attr` of
/// `flake`, then as given; anything else is an error.
pub open spec fn plan_for(arg: Seq<char>, is_dir: bool, w: Wanted) -> Result<PlanV, Seq<char>> {
    if is_dir {
        Ok(PlanV::ReadFile { name: file_name(w) })
    } else if arg.contains('#') {
        let i = hash_at(arg);
        let flake = arg.take(i);
        let attr = arg.skip(i + 1);
        Ok(
            PlanV::Evaluate {
                header: (if w == Wanted::Deps {
                    "Evaluating deps for "@
                } else {
                    "Evaluating "@
                }) + flake + "#"@ + attr + "..."@,
                refs: seq![
                    flake + "#nixosConfigurations."@ + attr + tracked_suffix(w),
                    arg + tracked_suffix(w),
                ],
                apply: match w {
                    Wanted::Combined { explicit } => Some(combined_apply(explicit)),
                    _ => None,
                },
                failure: failure_note(arg, w),
            },
        )
    } else {
        Err(not_found_note(arg))
    }
}

fn push_values_field(s: &mut String, explicit: bool)
    ensures
        final(s)@ == old(s)@ + values_field(explicit),
{
    if explicit {
        s.append("explicitConfigValues");
    } else {
        s.append("configValues");
    }
}

fn push_suffix(s: &mut String, w: Wanted)
    ensures
        final(s)@ == old(s)@ + tracked_suffix(w),
{
    match w {
        Wanted::Values { explicit } => {
            s.append(".dependencyTracking.");
            push_values_field(s, explicit);
            proof {
                assert(s@ =~= old(s)@ + tracked_suffix(w));
            }
        },
        Wanted::Deps => {
            s.append(".dependencyTracking.filteredDeps");
        },
        Wanted::Combined { .. } => {
            s.append(".dependencyTracking");
        },
    }
}

/// What a flake reference `flake#attr` is resolved to: the attribute path
/// evaluated ends in the tracking data wanted, spelled out here in full (the
/// explicitly defined values when `explicit` is set, all values otherwise,
/// the dependency listing, or the whole tracking data), first below
/// `nixosConfigurations.attr` of the flake and then below the reference as
/// given; both values and dependencies at once are read by a function that
/// picks the values the same way. A directory is read from the file that
/// holds what is wanted.
pub proof fn lemma_plan_spells_out(arg: Seq<char>, is_dir: bool, w: Wanted)
    ensures
        is_dir ==> plan_for(arg, is_dir, w) == Ok::<PlanV, Seq<char>>(
            PlanV::ReadFile {
                name: match w {
                    Wanted::Values { explicit: true } => "tracking-explicit.json"@,
                    Wanted::Values { explicit: false } => "tracking.json"@,
                    Wanted::Deps => "tracking-deps.json"@,
                    Wanted::Combined { explicit: true } => "tracking-explicit.json"@,
                    Wanted::Combined { explicit: false } => "tracking.json"@,
                },
            },
        ),
        !is_dir && arg.contains('#') ==> ({
            let suffix = match w {
                Wanted::Values { explicit: true } => ".dependencyTracking.explicitConfigValues"@,
                Wanted::Values { explicit: false } => ".dependencyTracking.configValues"@,
                Wanted::Deps => ".dependencyTracking.filteredDeps"@,
                Wanted::Combined { .. } => ".dependencyTracking"@,
            };
            let apply = match w {
                Wanted::Combined { explicit: true } => Some(
                    "t: { configValues = t.explicitConfigValues; filteredDeps = t.filteredDeps; }"@,
                ),
                Wanted::Combined { explicit: false } => Some(
                    "t: { configValues = t.configValues; filteredDeps = t.filteredDeps; }"@,
                ),
                _ => None,
            };
            let h = hash_at(arg);
            &&& plan_for(arg, is_dir, w) is Ok
            &&& plan_for(arg, is_dir, w)->Ok_0 matches PlanV::Evaluate { refs, apply: a, .. } && refs == seq![
                arg.take(h) + "#nixosConfigurations."@ + arg.skip(h + 1) + suffix,
                arg + suffix,
            ] && a == apply
        }),
        !is_dir && !arg.contains('#') ==> plan_for(arg, is_dir, w) is Err,
{
    reveal_strlit(".dependencyTracking.");
    reveal_strlit(".dependencyTracking.explicitConfigValues");
    reveal_strlit(".dependencyTracking.configValues");
    reveal_strlit("explicitConfigValues");
    reveal_strlit("configValues");
    reveal_strlit("t: { configValues = t.");
    reveal_strlit("; filteredDeps = t.filteredDeps; }");
    reveal_strlit("t: { configValues = t.explicitConfigValues; filteredDeps = t.filteredDeps; }");
    reveal_strlit("t: { configValues = t.configValues; filteredDeps = t.filteredDeps; }");
    assert(".dependencyTracking."@ + "explicitConfigValues"@ =~= ".dependencyTracking.explicitConfigValues"@);
    assert(".dependencyTracking."@ + "configValues"@ =~= ".dependencyTracking.configValues"@);
    assert("t: { configValues = t."@ + "explicitConfigValues"@ + "; filteredDeps = t.filteredDeps; }"@
        =~= "t: { configValues = t.explicitConfigValues; filteredDeps = t.filteredDeps; }"@);
    assert("t: { configValues = t."@ + "configValues"@ + "; filteredDeps = t.filteredDeps; }"@
        =~= "t: { configValues = t.configValues; filteredDeps = t.filteredDeps; }"@);
}

/// Decide how to resolve `arg`, given whether it names an existing directory.
pub fn plan_resolve(arg: &str, is_dir: bool, wanted: Wanted) -> (r: Result<Plan, String>)
    ensures
        match r {
            Ok(p) => plan_for(arg@, is_dir, wanted) == Ok::<PlanV, Seq<char>>(p.model()),
            Err(e) => plan_for(arg@, is_dir, wanted) == Err::<PlanV, Seq<char>>(e@),
        },
{
    if is_dir {
        let name = match wanted {
            Wanted::Values { explicit } => if explicit {
                String::from_str("tracking-explicit.json")
            } else {
                String::from_str("tracking.json")
            },
            Wanted::Deps => String::from_str("tracking-deps.json"),
            Wanted::Combined { explicit } => if explicit {
                String::from_str("tracking-explicit.json")
            } else {
                String::from_str("tracking.json")
            },
        };
        return Ok(Plan::ReadFile { name });
    }
    if !contains_char(arg, '#') {
        let mut e = String::new();
        e.append("'");
        e.append(arg);
        e.append("' is not an existing directory or flake reference (flake refs must contain '#')");
        return Err(e);
    }
    let cs = chars_of(arg);
    proof {
        lemma_hash_at(arg@);
    }
    let mut i: usize = 0;
    while cs[i] != '#'
        invariant
            cs@ == arg@,
            0 <= i <= hash_at(arg@),
            hash_at(arg@) < cs@.len(),
            cs@[hash_at(arg@)] == '#',
            forall|k: int| 0 <= k < hash_at(arg@) ==> cs@[k] != '#',
        decreases hash_at(arg@) - i,
    {
        assert(i < hash_at(arg@));
        i += 1;
    }
    assert(i == hash_at(arg@));
    assert(i < cs.len());
    let mut fv: Vec<char> = Vec::new();
    let mut j: usize = 0;
    while j < i
        invariant
            j <= i < cs@.len(),
            fv@ == cs@.take(j as int),
        decreases i - j,
    {
        fv.push(cs[j]);
        proof {
            assert(fv@ =~= cs@.take(j + 1));
        }
        j += 1;
    }
    let mut av: Vec<char> = Vec::new();
    let mut j: usize = i + 1;
    while j < cs.len()
        invariant
            i + 1 <= j <= cs@.len(),
            av@ == cs@.subrange(i + 1, j as int),
        decreases cs.len() - j,
    {
        av.push(cs[j]);
        proof {
            assert(av@ =~= cs@.subrange(i + 1, j + 1));
        }
        j += 1;
    }
    let flake = string_of(&fv);
    let attr = string_of(&av);
    proof {
        assert(av@ =~= arg@.skip(i + 1));
    }
    let mut header = String::new();
    if wanted == Wanted::Deps {
        header.append("Evaluating deps for ");
    } else {
        header.append("Evaluating ");
    }
    push_string(&mut header, &flake);
    header.append("#");
    push_string(&mut header, &attr);
    header.append("...");
    let mut first = copy_string(&flake);
    first.append("#nixosConfigurations.");
    push_string(&mut first, &attr);
    push_suffix(&mut first, wanted);
    let mut second = String::new();
    second.append(arg);
    push_suffix(&mut second, wanted);
    let mut refs: Vec<String> = Vec::new();
    refs.push(first);
    refs.push(second);
    let apply = match wanted {
        Wanted::Combined { explicit } => {
            let mut a = String::new();
            a.append("t: { configValues = t.");
            push_values_field(&mut a, explicit);
            a.append("; filteredDeps = t.filteredDeps; }");
            Some(a)
        },
        _ => None,
    };
    let mut failure = String::new();
    if wanted == Wanted::Deps {
        failure.append("Could not evaluate dependency data for '");
    } else {
        failure.append("Could not evaluate tracking data for '");
    }
    failure.append(arg);
    failure.append(
        "'.\nMake sure the flake's nixosSystem is called with trackDependencies = true\nand uses a nixpkgs that supports dependency tracking.",
    );
    let plan = Plan::Evaluate { header, refs, apply, failure };
    proof {
        assert(texts(refs@) =~= seq![
            flake@ + "#nixosConfigurations."@ + attr@ + tracked_suffix(wanted),
            arg@ + tracked_suffix(wanted),
        ]);
        assert(plan.model() == match plan_for(arg@, is_dir, wanted) {
            Ok(p) => p,
            Err(_) => plan.model(),
        });
    }
    Ok(plan)
}

/// The arguments of the `nix eval` call for `reference`.
pub open spec fn eval_args(reference: Seq<char>, apply: Option<Seq<char>>, extra: Seq<Seq<char>>) -> Seq<Seq<char>> {
    (match apply {
        Some(a) => seq!["eval"@, "--json"@, "--apply"@, a],
        None => seq!["eval"@, "--json"@],
    }) + extra + seq![reference]
}

/// The arguments of the `nix eval` call for `reference`, the extra
/// arguments given by the user before it.
pub fn nix_eval_args(reference: &String, apply: &Option<String>, extra: &Vec<String>) -> (args: Vec<String>)
    ensures
        texts(args@) == eval_args(
            reference@,
            match apply {
                Some(a) => Some(a@),
                None => None,
            },
            texts(extra@),
        ),
{
    let mut args: Vec<String> = Vec::new();
    args.push(String::from_str("eval"));
    args.push(String::from_str("--json"));
    match apply {
        Some(a) => {
            args.push(String::from_str("--apply"));
            args.push(copy_string(a));
        },
        None => {},
    }
    let ghost start = texts(args@);
    let mut i: usize = 0;
    while i < extra.len()
        invariant
            i <= extra.len(),
            texts(args@) == start + texts(extra@).take(i as int),
        decreases extra.len() - i,
    {
        let ghost prev = args@;
        args.push(copy_string(&extra[i]));
        proof {
            assert(texts(args@) =~= texts(prev).push(extra@[i as int]@));
            assert(texts(extra@).take(i + 1) =~= texts(extra@).take(i as int).push(extra@[i as int]@));
        }
        i += 1;
    }
    let ghost prev = args@;
    args.push(copy_string(reference));
    proof {
        assert(texts(extra@).take(extra.len() as int) =~= texts(extra@));
        assert(texts(args@) =~= texts(prev).push(reference@));
        assert(texts(args@) =~= eval_args(
            reference@,
            match apply {
                Some(a) => Some(a@),
                None => None,
            },
            texts(extra@),
        ));
    }
    args
}

// ---------------------------------------------------------------------------
// Both parts at once
// ---------------------------------------------------------------------------

/// The configuration values and the dependency listing of one configuration.
pub struct CombinedResult {
    pub config_values: JsonValue,
    pub filtered_deps: JsonValue,
}

/// The configuration values of a combined evaluation: its `configValues`
/// field, or an empty set.
pub open spec fn values_part(v: Json) -> Json {
    match v {
        Json::Object(m) => match field(m, "configValues"@) {
            Some(x) => x,
            None => Json::Object(seq![]),
        },
        _ => Json::Object(seq![]),
    }
}

/// The dependency listing of a combined evaluation: its `filteredDeps`
/// field, or an empty list.
pub open spec fn deps_part(v: Json) -> Json {
    match v {
        Json::Object(m) => match field(m, "filteredDeps"@) {
            Some(x) => x,
            None => Json::Array(seq![]),
        },
        _ => Json::Array(seq![]),
    }
}

fn field_value<'a>(entries: &'a Vec<(String, JsonValue)>, key: &String) -> (r: Option<&'a JsonValue>)
    ensures
        match r {
            Some(v) => field(entries_model(entries@), key@) == Some(v.model()),
            None => field(entries_model(entries@), key@) is None,
        },
{
    let ghost m = entries_model(entries@);
    let mut i: usize = 0;
    proof {
        assert(m.skip(0) =~= m);
    }
    while i < entries.len()
        invariant
            i <= entries.len(),
            m == entries_model(entries@),
            field(m, key@) == field(m.skip(i as int), key@),
        decreases entries.len() - i,
    {
        proof {
            assert(m.skip(i as int)[0] == m[i as int]);
            assert(m.skip(i as int).drop_first() =~= m.skip(i + 1));
        }
        if crate::text::same_text(&entries[i].0, key) {
            return Some(&entries[i].1);
        }
        i += 1;
    }
    None
}

/// An empty set.
fn empty_object() -> (v: JsonValue)
    ensures
        v.model() == Json::Object(seq![]),
{
    let e: Vec<(String, JsonValue)> = Vec::new();
    proof {
        lemma_object_model(&e);
        assert(entries_model(e@) =~= Seq::<(Seq<char>, Json)>::empty());
    }
    JsonValue::Object(e)
}

/// An empty list.
fn empty_array() -> (v: JsonValue)
    ensures
        v.model() == Json::Array(seq![]),
{
    let e: Vec<JsonValue> = Vec::new();
    proof {
        crate::json::lemma_array_model(&e);
        assert(crate::json::items_model(e@) =~= Seq::<Json>::empty());
    }
    JsonValue::Array(e)
}

/// Split the result of a combined evaluation into its two parts.
pub fn combined_from_value(value: &JsonValue) -> (r: CombinedResult)
    ensures
        r.config_values.model() == values_part(value.model()),
        r.filtered_deps.model() == deps_part(value.model()),
{
    match value {
        JsonValue::Object(m) => {
            proof {
                lemma_object_model(m);
            }
            let config_values = match field_value(m, &String::from_str("configValues")) {
                Some(v) => copy_json(v),
                None => empty_object(),
            };
            let filtered_deps = match field_value(m, &String::from_str("filteredDeps")) {
                Some(v) => copy_json(v),
                None => empty_array(),
            };
            CombinedResult { config_values, filtered_deps }
        },
        _ => CombinedResult { config_values: empty_object(), filtered_deps: empty_array() },
    }
}

/// The parts read from a directory: the values, and the dependency listing
/// when it could be read (an empty list otherwise).
pub fn combined_from_files(config_values: JsonValue, filtered_deps: Option<JsonValue>) -> (r: CombinedResult)
    ensures
        r.config_values.model() == config_values.model(),
        r.filtered_deps.model() == match filtered_deps {
            Some(d) => d.model(),
            None => Json::Array(seq![]),
        },
{
    let filtered_deps = match filtered_deps {
        Some(d) => d,
        None => empty_array(),
    };
    CombinedResult { config_values, filtered_deps }
}

} // verus!
