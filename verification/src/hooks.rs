//! The hooks of the tool in the settings of a coding agent: putting them in and
//! taking them out, without touching anything else.

use vstd::prelude::*;
use vstd::string::*;

use crate::json::{
    append_item, json_str, new_array1, new_object1, new_object2, parse, pretty, put, take_field, Json,
};
use crate::json::{
    array_of, array_view, field, lemma_array_view, object1, object2, object_view, parsed_text,
    pretty_text, str_field, JsonView,
};
use crate::text::{contains_text, is_blank};
use crate::text::{all_space, law_substring, law_trim, law_trim_leaves_text};
use crate::text::{has_substring, occurs_at, opt_str, trim_of};

verus! {

/// What a new session runs.
pub const SESSION_HOOK_CMD: &'static str =
    "(gloss review \"$(basename \"$PWD\")\" >/dev/null 2>&1 &) || true";

/// What every prompt runs.
pub const PROMPT_HOOK_CMD: &'static str =
    "gloss snap \"turn-$(date +%H%M%S)\" >/dev/null 2>&1 || true";

/// The command of the session hook is known by this text.
pub const SESSION_MARKER: &'static str = "gloss review";

/// The command of the prompt hook is known by this text.
pub const PROMPT_MARKER: &'static str = "gloss snap";

// ---- hooks ----

/// A hook whose command holds `marker`.
pub open spec fn command_has(hook: JsonView, marker: Seq<char>) -> bool {
    match str_field(hook, "command"@) {
        Some(c) => has_substring(c, marker),
        None => false,
    }
}

/// The hooks of an entry in the list of an event.
pub open spec fn inner_hooks(entry: JsonView) -> Option<Seq<JsonView>> {
    match field(entry, "hooks"@) {
        Some(h) => array_of(h),
        None => None,
    }
}

/// One of the hooks has a command that holds `marker`.
pub open spec fn hooks_have(hooks: Seq<JsonView>, marker: Seq<char>) -> bool {
    exists|i: int| 0 <= i < hooks.len() && command_has(#[trigger] hooks[i], marker)
}

/// One of the hooks of an entry has a command that holds `marker`.
pub open spec fn entry_has(entry: JsonView, marker: Seq<char>) -> bool {
    match inner_hooks(entry) {
        Some(inner) => hooks_have(inner, marker),
        None => false,
    }
}

/// One of the entries has a hook with a command that holds `marker`.
pub open spec fn any_has(entries: Seq<JsonView>, marker: Seq<char>) -> bool {
    exists|i: int| 0 <= i < entries.len() && entry_has(#[trigger] entries[i], marker)
}

fn command_contains(hook: &Json, marker: &str) -> (r: bool)
    ensures
        r == command_has(hook@, marker@),
{
    match hook.get_str("command") {
        Some(c) => contains_text(c, marker),
        None => false,
    }
}

/// Whether one of the entries has a hook with a command that holds `marker`.
pub fn hook_contains(entries: &Vec<Json>, marker: &str) -> (r: bool)
    ensures
        r == any_has(array_view(entries@), marker@),
{
    proof {
        lemma_array_view(entries@);
    }
    let ghost all = array_view(entries@);
    let mut i: usize = 0;
    while i < entries.len()
        invariant
            i <= entries@.len(),
            all == array_view(entries@),
            all.len() == entries@.len(),
            forall|k: int| 0 <= k < all.len() ==> #[trigger] all[k] == entries@[k]@,
            forall|k: int| 0 <= k < i ==> !entry_has(#[trigger] all[k], marker@),
        decreases entries@.len() - i,
    {
        assert(all[i as int] == entries@[i as int]@);
        if let Some(Json::Array(inner)) = entries[i].get("hooks") {
            proof {
                lemma_array_view(inner@);
            }
            let ghost hooks = array_view(inner@);
            assert(inner_hooks(all[i as int]) == Some(hooks));
            let mut j: usize = 0;
            while j < inner.len()
                invariant
                    i < entries@.len(),
                    all == array_view(entries@),
                    all.len() == entries@.len(),
                    j <= inner@.len(),
                    hooks == array_view(inner@),
                    hooks.len() == inner@.len(),
                    inner_hooks(all[i as int]) == Some(hooks),
                    forall|k: int| 0 <= k < hooks.len() ==> #[trigger] hooks[k] == inner@[k]@,
                    forall|k: int| 0 <= k < j ==> !command_has(#[trigger] hooks[k], marker@),
                decreases inner@.len() - j,
            {
                assert(hooks[j as int] == inner@[j as int]@);
                if command_contains(&inner[j], marker) {
                    assert(command_has(hooks[j as int], marker@));
                    assert(entry_has(all[i as int], marker@));
                    return true;
                }
                j += 1;
            }
        }
        i += 1;
    }
    false
}

/// A hook that runs a command.
pub open spec fn command_hook(cmd: Seq<char>) -> JsonView {
    object2("type"@, JsonView::Str("command"@), "command"@, JsonView::Str(cmd))
}

/// An entry with one hook that runs a command.
pub open spec fn hook_entry(cmd: Seq<char>) -> JsonView {
    object1("hooks"@, JsonView::Array(seq![command_hook(cmd)]))
}

fn new_hook_entry(cmd: &str) -> (r: Json)
    ensures
        r@ == hook_entry(cmd@),
{
    let hook = new_object2("type", json_str("command"), "command", json_str(cmd));
    new_object1("hooks", new_array1(hook))
}

/// Where there is something for the event, it is a list.
pub open spec fn event_is_list(hooks: Map<Seq<char>, JsonView>, event: Seq<char>) -> bool {
    hooks.contains_key(event) ==> hooks[event] is Array
}

/// The entries of an event; none where there is nothing for it.
pub open spec fn event_entries(
    hooks: Map<Seq<char>, JsonView>,
    event: Seq<char>,
) -> Seq<JsonView> {
    if hooks.contains_key(event) {
        hooks[event]->Array_0
    } else {
        Seq::empty()
    }
}

/// The hooks with one that runs `cmd` on `event`, unless some hook of the event
/// already has a command that holds `marker`.
pub open spec fn with_hook(
    hooks: Map<Seq<char>, JsonView>,
    event: Seq<char>,
    cmd: Seq<char>,
    marker: Seq<char>,
) -> Map<Seq<char>, JsonView> {
    let entries = event_entries(hooks, event);
    if any_has(entries, marker) {
        hooks
    } else {
        hooks.insert(event, JsonView::Array(entries.push(hook_entry(cmd))))
    }
}

/// Adds a hook that runs `cmd` on `event`, as an entry of its own, unless some
/// hook of the event already has a command that holds `marker`. Tells whether it
/// was added.
pub fn ensure_hook(
    hooks: &mut Vec<(String, Json)>,
    event: &str,
    cmd: &str,
    marker: &str,
) -> (r: bool)
    requires
        event_is_list(object_view(old(hooks)@), event@),
    ensures
        object_view(final(hooks)@) == with_hook(object_view(old(hooks)@), event@, cmd@, marker@),
        r == !any_has(event_entries(object_view(old(hooks)@), event@), marker@),
{
    let ghost start = object_view(hooks@);
    let mut entries: Vec<Json> = match take_field(hooks, event) {
        Some(Json::Array(v)) => v,
        _ => Vec::new(),
    };
    assert(array_view(entries@) =~= event_entries(start, event@));
    if hook_contains(&entries, marker) {
        put(hooks, event, Json::Array(entries));
        assert(start.contains_key(event@));
        assert(object_view(hooks@) =~= start);
        false
    } else {
        let ghost before = array_view(entries@);
        append_item(&mut entries, new_hook_entry(cmd));
        let ghost after = array_view(entries@);
        put(hooks, event, Json::Array(entries));
        assert(object_view(hooks@) =~= start.insert(event@, JsonView::Array(after)));
        true
    }
}

/// The hooks whose command does not hold `marker`.
pub open spec fn hooks_without(hooks: Seq<JsonView>, marker: Seq<char>) -> Seq<JsonView>
    decreases hooks.len(),
{
    if hooks.len() == 0 {
        Seq::empty()
    } else if command_has(hooks.last(), marker) {
        hooks_without(hooks.drop_last(), marker)
    } else {
        hooks_without(hooks.drop_last(), marker).push(hooks.last())
    }
}

/// An entry without the hooks whose command holds `marker`; nothing where no hook
/// is left. An entry that has no list of hooks stays as it is.
pub open spec fn entry_without(entry: JsonView, marker: Seq<char>) -> Option<JsonView> {
    match inner_hooks(entry) {
        None => Some(entry),
        Some(inner) => if hooks_without(inner, marker).len() == 0 {
            None
        } else {
            Some(
                JsonView::Object(
                    (entry->Object_0).insert(
                        "hooks"@,
                        JsonView::Array(hooks_without(inner, marker)),
                    ),
                ),
            )
        },
    }
}

/// The entries without the hooks whose command holds `marker`.
pub open spec fn entries_without(entries: Seq<JsonView>, marker: Seq<char>) -> Seq<JsonView>
    decreases entries.len(),
{
    if entries.len() == 0 {
        Seq::empty()
    } else {
        let rest = entries_without(entries.drop_last(), marker);
        match entry_without(entries.last(), marker) {
            Some(e) => rest.push(e),
            None => rest,
        }
    }
}

/// The hooks without those of the event whose command holds `marker`; an event
/// that is left without entries is dropped.
pub open spec fn without_hook(
    hooks: Map<Seq<char>, JsonView>,
    event: Seq<char>,
    marker: Seq<char>,
) -> Map<Seq<char>, JsonView> {
    if hooks.contains_key(event) && hooks[event] is Array {
        let left = entries_without(hooks[event]->Array_0, marker);
        if left.len() == 0 {
            hooks.remove(event)
        } else {
            hooks.insert(event, JsonView::Array(left))
        }
    } else {
        hooks
    }
}

/// A hook of the event has a command that holds `marker`.
pub open spec fn event_has(
    hooks: Map<Seq<char>, JsonView>,
    event: Seq<char>,
    marker: Seq<char>,
) -> bool {
    hooks.contains_key(event) && hooks[event] is Array && any_has(hooks[event]->Array_0, marker)
}

/// A shorter list of hooks lost one that held the marker.
proof fn lemma_hooks_without(hooks: Seq<JsonView>, marker: Seq<char>)
    ensures
        hooks_without(hooks, marker).len() <= hooks.len(),
        (hooks_without(hooks, marker).len() < hooks.len()) == hooks_have(hooks, marker),
        !hooks_have(hooks, marker) ==> hooks_without(hooks, marker) == hooks,
        !hooks_have(hooks_without(hooks, marker), marker),
    decreases hooks.len(),
{
    if hooks.len() > 0 {
        let front = hooks.drop_last();
        let left = hooks_without(front, marker);
        lemma_hooks_without(front, marker);
        if hooks_have(front, marker) {
            let i = choose|i: int| 0 <= i < front.len() && command_has(#[trigger] front[i], marker);
            assert(command_has(hooks[i], marker));
        }
        if command_has(hooks.last(), marker) {
            assert(command_has(hooks[hooks.len() - 1], marker));
        } else {
            if hooks_have(hooks, marker) {
                let i = choose|i: int|
                    0 <= i < hooks.len() && command_has(#[trigger] hooks[i], marker);
                assert(command_has(front[i], marker));
            } else {
                assert(left.push(hooks.last()) =~= hooks);
            }
            let all = left.push(hooks.last());
            if hooks_have(all, marker) {
                let i = choose|i: int| 0 <= i < all.len() && command_has(#[trigger] all[i], marker);
                if i < left.len() {
                    assert(command_has(left[i], marker));
                }
            }
        }
    }
}

/// The hooks whose command does not hold `marker`.
fn strip_inner(inner: Vec<Json>, marker: &str) -> (r: Vec<Json>)
    ensures
        array_view(r@) == hooks_without(array_view(inner@), marker@),
{
    let ghost all = inner@;
    let mut out: Vec<Json> = Vec::new();
    proof {
        lemma_array_view(all);
        assert(hooks_without(array_view(all).take(0), marker@) =~= Seq::<JsonView>::empty());
    }
    for h in it: inner
        invariant
            it.seq() == all,
            array_view(all).len() == all.len(),
            forall|i: int| 0 <= i < all.len() ==> #[trigger] array_view(all)[i] == all[i]@,
            array_view(out@) == hooks_without(
                array_view(all).take(it.index() as int),
                marker@,
            ),
    {
        let ghost at = it.index() as int;
        assert(array_view(all).take(at + 1).drop_last() == array_view(all).take(at));
        assert(array_view(all).take(at + 1).last() == h@);
        if !command_contains(&h, marker) {
            append_item(&mut out, h);
        }
    }
    assert(array_view(all).take(all.len() as int) == array_view(all));
    out
}

/// An entry without the hooks whose command holds `marker`, and whether one was
/// dropped.
fn strip_entry(entry: Json, marker: &str) -> (r: (Option<Json>, bool))
    ensures
        match r.0 {
            Some(e) => entry_without(entry@, marker@) == Some(e@),
            None => entry_without(entry@, marker@) is None,
        },
        r.1 == entry_has(entry@, marker@),
{
    let ghost start = entry@;
    match entry {
        Json::Object(fields) => {
            let mut rest = fields;
            let ghost m = object_view(fields@);
            match take_field(&mut rest, "hooks") {
                Some(Json::Array(inner)) => {
                    let before = inner.len();
                    let ghost all = array_view(inner@);
                    proof {
                        lemma_array_view(inner@);
                        lemma_hooks_without(all, marker@);
                    }
                    let left = strip_inner(inner, marker);
                    proof {
                        lemma_array_view(left@);
                    }
                    let dropped = left.len() < before;
                    if left.len() == 0 {
                        (None, dropped)
                    } else {
                        let ghost kept = array_view(left@);
                        put(&mut rest, "hooks", Json::Array(left));
                        assert(object_view(rest@) =~= m.insert("hooks"@, JsonView::Array(kept)));
                        (Some(Json::Object(rest)), dropped)
                    }
                },
                Some(other) => {
                    put(&mut rest, "hooks", other);
                    assert(object_view(rest@) =~= m);
                    (Some(Json::Object(rest)), false)
                },
                None => {
                    assert(object_view(rest@) =~= m);
                    (Some(Json::Object(rest)), false)
                },
            }
        },
        other => (Some(other), false),
    }
}

/// Removes every hook of the event whose command holds `marker`. An entry that is
/// left without hooks goes too, and so does an event that is left without
/// entries. Tells whether a hook was removed.
pub fn strip_hook(hooks: &mut Vec<(String, Json)>, event: &str, marker: &str) -> (r: bool)
    ensures
        object_view(final(hooks)@) == without_hook(object_view(old(hooks)@), event@, marker@),
        r == event_has(object_view(old(hooks)@), event@, marker@),
{
    let ghost start = object_view(hooks@);
    match take_field(hooks, event) {
        None => {
            assert(object_view(hooks@) =~= start);
            false
        },
        Some(Json::Array(entries)) => {
            let ghost all = entries@;
            let mut out: Vec<Json> = Vec::new();
            let mut removed = false;
            proof {
                lemma_array_view(all);
                assert(entries_without(array_view(all).take(0), marker@) =~= Seq::<
                    JsonView,
                >::empty());
            }
            for e in it: entries
                invariant
                    it.seq() == all,
                    array_view(all).len() == all.len(),
                    forall|i: int| 0 <= i < all.len() ==> #[trigger] array_view(all)[i] == all[i]@,
                    array_view(out@) == entries_without(
                        array_view(all).take(it.index() as int),
                        marker@,
                    ),
                    removed == any_has(array_view(all).take(it.index() as int), marker@),
            {
                let ghost at = it.index() as int;
                let ghost seen = array_view(all).take(at);
                let ghost more = array_view(all).take(at + 1);
                assert(more.drop_last() == seen);
                assert(more.last() == e@);
                let (left, dropped) = strip_entry(e, marker);
                if let Some(l) = left {
                    append_item(&mut out, l);
                }
                proof {
                    if any_has(seen, marker@) {
                        let i = choose|i: int|
                            0 <= i < seen.len() && entry_has(#[trigger] seen[i], marker@);
                        assert(entry_has(more[i], marker@));
                    }
                    if dropped {
                        assert(entry_has(more[at], marker@));
                    }
                    if any_has(more, marker@) {
                        let i = choose|i: int|
                            0 <= i < more.len() && entry_has(#[trigger] more[i], marker@);
                        if i < at {
                            assert(entry_has(seen[i], marker@));
                        }
                    }
                }
                if dropped {
                    removed = true;
                }
            }
            assert(array_view(all).take(all.len() as int) == array_view(all));
            proof {
                lemma_array_view(out@);
            }
            if out.len() > 0 {
                let ghost left = array_view(out@);
                put(hooks, event, Json::Array(out));
                assert(object_view(hooks@) =~= start.insert(event@, JsonView::Array(left)));
            }
            removed
        },
        Some(other) => {
            put(hooks, event, other);
            assert(object_view(hooks@) =~= start);
            false
        },
    }
}


// ---- settings ----

/// The event that starts a session.
pub const SESSION_EVENT: &'static str = "SessionStart";

/// The event of a submitted prompt.
pub const PROMPT_EVENT: &'static str = "UserPromptSubmit";

/// The hooks in the settings; none where the settings have no such entry.
pub open spec fn settings_hooks(settings: Map<Seq<char>, JsonView>) -> JsonView {
    if settings.contains_key("hooks"@) {
        settings["hooks"@]
    } else {
        JsonView::Object(Map::empty())
    }
}

/// Where the settings say something about one of the two events, it is a list.
pub open spec fn events_are_lists(settings: JsonView) -> bool {
    match settings {
        JsonView::Object(m) => match settings_hooks(m) {
            JsonView::Object(h) => event_is_list(h, SESSION_EVENT@) && event_is_list(
                h,
                PROMPT_EVENT@,
            ),
            _ => true,
        },
        _ => true,
    }
}

/// The hooks with both of the tool's own.
pub open spec fn with_both(h: Map<Seq<char>, JsonView>) -> Map<Seq<char>, JsonView> {
    with_hook(
        with_hook(h, SESSION_EVENT@, SESSION_HOOK_CMD@, SESSION_MARKER@),
        PROMPT_EVENT@,
        PROMPT_HOOK_CMD@,
        PROMPT_MARKER@,
    )
}

/// What settings that are no object are answered with.
pub open spec fn root_error() -> Seq<char> {
    "settings.json root is not an object"@
}

/// What hooks that are no object are answered with.
pub open spec fn hooks_error() -> Seq<char> {
    "settings.json `hooks` is not an object"@
}

/// The settings with both hooks, or what is wrong with the settings.
pub open spec fn hooked(settings: JsonView) -> Result<JsonView, Seq<char>> {
    match settings {
        JsonView::Object(m) => match settings_hooks(m) {
            JsonView::Object(h) => Ok(
                JsonView::Object(m.insert("hooks"@, JsonView::Object(with_both(h)))),
            ),
            _ => Err(hooks_error()),
        },
        _ => Err(root_error()),
    }
}

/// Which of the two hooks are missing in the settings.
pub open spec fn missing_hooks(settings: JsonView) -> (bool, bool) {
    let h = settings_hooks(settings->Object_0)->Object_0;
    (
        !any_has(event_entries(h, SESSION_EVENT@), SESSION_MARKER@),
        !any_has(event_entries(h, PROMPT_EVENT@), PROMPT_MARKER@),
    )
}

proof fn lemma_names()
    ensures
        SESSION_EVENT@ != PROMPT_EVENT@,
        has_substring(SESSION_HOOK_CMD@, SESSION_MARKER@),
        has_substring(PROMPT_HOOK_CMD@, PROMPT_MARKER@),
        "type"@ != "command"@,
{
    reveal_strlit("SessionStart");
    reveal_strlit("UserPromptSubmit");
    reveal_strlit("(gloss review \"$(basename \"$PWD\")\" >/dev/null 2>&1 &) || true");
    reveal_strlit("gloss snap \"turn-$(date +%H%M%S)\" >/dev/null 2>&1 || true");
    reveal_strlit("gloss review");
    reveal_strlit("gloss snap");
    reveal_strlit("type");
    reveal_strlit("command");
    assert(SESSION_EVENT@.len() != PROMPT_EVENT@.len());
    assert(SESSION_HOOK_CMD@.subrange(1, 1 + SESSION_MARKER@.len() as int) =~= SESSION_MARKER@);
    assert(occurs_at(SESSION_HOOK_CMD@, SESSION_MARKER@, 1));
    assert(PROMPT_HOOK_CMD@.subrange(0, PROMPT_MARKER@.len() as int) =~= PROMPT_MARKER@);
    assert(occurs_at(PROMPT_HOOK_CMD@, PROMPT_MARKER@, 0));
    assert("type"@.len() != "command"@.len());
}

/// Whether settings that are an object, with hooks that are an object, have a
/// list wherever they say something about one of the two events.
pub fn has_event_lists(settings: &Json) -> (r: bool)
    ensures
        r == events_are_lists(settings@),
{
    match settings.get("hooks") {
        Some(hooks) => {
            let session = match hooks.get(SESSION_EVENT) {
                Some(Json::Array(_)) => true,
                Some(_) => false,
                None => true,
            };
            let prompt = match hooks.get(PROMPT_EVENT) {
                Some(Json::Array(_)) => true,
                Some(_) => false,
                None => true,
            };
            session && prompt
        },
        None => true,
    }
}

/// Puts both hooks into the settings. Gives the new settings, and for either hook
/// whether it was added.
pub fn ensure_hooks(settings: Json) -> (r: Result<(Json, bool, bool), String>)
    requires
        events_are_lists(settings@),
    ensures
        match r {
            Ok(t) => hooked(settings@) == Ok::<JsonView, Seq<char>>(t.0@) && (t.1, t.2)
                == missing_hooks(settings@),
            Err(e) => hooked(settings@) == Err::<JsonView, Seq<char>>(e@),
        },
{
    match settings {
        Json::Object(fields) => {
            let mut rest = fields;
            let ghost m = object_view(fields@);
            let mut hooks: Vec<(String, Json)> = match take_field(&mut rest, "hooks") {
                Some(Json::Object(h)) => h,
                Some(_) => {
                    return Err("settings.json `hooks` is not an object".to_string());
                },
                None => Vec::new(),
            };
            let ghost h = object_view(hooks@);
            assert(settings_hooks(m) == JsonView::Object(h)) by {
                assert(object_view(Seq::<(String, Json)>::empty()) =~= Map::empty());
            }
            proof {
                lemma_names();
            }
            let session = ensure_hook(&mut hooks, SESSION_EVENT, SESSION_HOOK_CMD, SESSION_MARKER);
            assert(event_entries(object_view(hooks@), PROMPT_EVENT@) == event_entries(
                h,
                PROMPT_EVENT@,
            ));
            let prompt = ensure_hook(&mut hooks, PROMPT_EVENT, PROMPT_HOOK_CMD, PROMPT_MARKER);
            let ghost after = object_view(hooks@);
            put(&mut rest, "hooks", Json::Object(hooks));
            assert(object_view(rest@) =~= m.insert("hooks"@, JsonView::Object(after)));
            Ok((Json::Object(rest), session, prompt))
        },
        _ => Err("settings.json root is not an object".to_string()),
    }
}

/// The hooks without either of the tool's own.
pub open spec fn without_both(h: Map<Seq<char>, JsonView>) -> Map<Seq<char>, JsonView> {
    without_hook(
        without_hook(h, SESSION_EVENT@, SESSION_MARKER@),
        PROMPT_EVENT@,
        PROMPT_MARKER@,
    )
}

/// The hooks of settings that are an object with an entry for hooks that is an
/// object.
pub open spec fn present_hooks(settings: JsonView) -> Option<Map<Seq<char>, JsonView>> {
    match field(settings, "hooks"@) {
        Some(JsonView::Object(h)) => Some(h),
        _ => None,
    }
}

/// The settings without the hooks; nothing where they hold no hooks at all.
pub open spec fn unhooked(settings: JsonView) -> Option<JsonView> {
    match present_hooks(settings) {
        Some(h) => Some(
            JsonView::Object(
                (settings->Object_0).insert("hooks"@, JsonView::Object(without_both(h))),
            ),
        ),
        None => None,
    }
}

/// Takes both hooks out of the settings. Gives the new settings, and for either
/// hook whether it was there; nothing where the settings hold no hooks at all, and
/// so stay as they are.
pub fn remove_hooks(settings: Json) -> (r: Option<(Json, bool, bool)>)
    ensures
        match r {
            Some(t) => unhooked(settings@) == Some(t.0@) && t.1 == event_has(
                present_hooks(settings@)->0,
                SESSION_EVENT@,
                SESSION_MARKER@,
            ) && t.2 == event_has(present_hooks(settings@)->0, PROMPT_EVENT@, PROMPT_MARKER@),
            None => unhooked(settings@) is None,
        },
{
    match settings {
        Json::Object(fields) => {
            let mut rest = fields;
            let ghost m = object_view(fields@);
            match take_field(&mut rest, "hooks") {
                Some(Json::Object(h)) => {
                    let mut hooks = h;
                    let ghost before = object_view(h@);
                    assert(present_hooks(settings@) == Some(before));
                    proof {
                        lemma_names();
                    }
                    let session = strip_hook(&mut hooks, SESSION_EVENT, SESSION_MARKER);
                    let prompt = strip_hook(&mut hooks, PROMPT_EVENT, PROMPT_MARKER);
                    let ghost after = object_view(hooks@);
                    put(&mut rest, "hooks", Json::Object(hooks));
                    assert(object_view(rest@) =~= m.insert("hooks"@, JsonView::Object(after)));
                    Some((Json::Object(rest), session, prompt))
                },
                _ => None,
            }
        },
        _ => None,
    }
}

/// What the settings file holds: an empty object where there is no file, or where
/// it holds nothing but white space.
pub open spec fn settings_of(
    text: Option<Seq<char>>,
    path: Seq<char>,
) -> Result<JsonView, Seq<char>> {
    match text {
        None => Ok(JsonView::Object(Map::empty())),
        Some(t) => if trim_of(t).len() == 0 {
            Ok(JsonView::Object(Map::empty()))
        } else {
            match parsed_text(t) {
                Ok(v) => Ok(v),
                Err(e) => Err("parse "@ + path + ": "@ + e),
            }
        },
    }
}

/// Reads the text of the settings file at `path`, if there is one.
pub fn read_settings(text: Option<&str>, path: &str) -> (r: Result<Json, String>)
    ensures
        match r {
            Ok(v) => settings_of(opt_str(text), path@) == Ok::<JsonView, Seq<char>>(v@),
            Err(e) => settings_of(opt_str(text), path@) == Err::<JsonView, Seq<char>>(e@),
        },
{
    assert(object_view(Seq::<(String, Json)>::empty()) =~= Map::empty());
    match text {
        None => Ok(Json::Object(Vec::new())),
        Some(t) => if is_blank(t) {
            Ok(Json::Object(Vec::new()))
        } else {
            match parse(t) {
                Ok(v) => Ok(v),
                Err(e) => {
                    let mut m = "parse ".to_string();
                    m.append(path);
                    m.append(": ");
                    m.append(e.as_str());
                    Err(m)
                },
            }
        },
    }
}

/// The text of the settings file, or why it cannot be written.
pub open spec fn written(settings: JsonView) -> Result<Seq<char>, Seq<char>> {
    match pretty_text(settings) {
        Ok(s) => Ok(s),
        Err(e) => Err("serialize: "@ + e),
    }
}

/// The text of the settings file.
pub fn settings_text(settings: Json) -> (r: Result<String, String>)
    ensures
        match r {
            Ok(s) => written(settings@) == Ok::<Seq<char>, Seq<char>>(s@),
            Err(e) => written(settings@) == Err::<Seq<char>, Seq<char>>(e@),
        },
{
    match pretty(settings) {
        Ok(s) => Ok(s),
        Err(e) => {
            let mut m = "serialize: ".to_string();
            m.append(e.as_str());
            Err(m)
        },
    }
}

/// What is to be written to the settings file, and for either hook whether that
/// changes it.
pub struct SettingsEdit {
    pub text: String,
    pub session: bool,
    pub prompt: bool,
}

/// The new text of the settings file that puts both hooks in, from its old text.
/// Nothing where the settings say something about one of the two events that is no
/// list: such settings cannot take the hook.
pub fn hooked_settings(text: Option<&str>, path: &str) -> (r: Result<Option<SettingsEdit>, String>)
    ensures
        match settings_of(opt_str(text), path@) {
            Err(e) => r matches Err(m) && m@ == e,
            Ok(v) => if !events_are_lists(v) {
                r matches Ok(None)
            } else {
                match hooked(v) {
                    Err(e) => r matches Err(m) && m@ == e,
                    Ok(new) => match written(new) {
                        Err(e) => r matches Err(m) && m@ == e,
                        Ok(t) => r matches Ok(Some(edit)) && edit.text@ == t && (
                            edit.session,
                            edit.prompt,
                        ) == missing_hooks(v),
                    },
                }
            },
        },
{
    match read_settings(text, path) {
        Err(e) => Err(e),
        Ok(v) => if !has_event_lists(&v) {
            Ok(None)
        } else {
            match ensure_hooks(v) {
                Err(e) => Err(e),
                Ok((new, session, prompt)) => match settings_text(new) {
                    Err(e) => Err(e),
                    Ok(t) => Ok(Some(SettingsEdit { text: t, session, prompt })),
                },
            }
        },
    }
}

/// The new text of the settings file that takes both hooks out, from its old text.
/// Nothing where there is no file, or no hooks in it: it stays as it is.
pub fn unhooked_settings(text: Option<&str>, path: &str) -> (r: Result<
    Option<SettingsEdit>,
    String,
>)
    ensures
        match settings_of(opt_str(text), path@) {
            Err(e) => r matches Err(m) && m@ == e,
            Ok(v) => match unhooked(v) {
                None => r matches Ok(None),
                Some(new) => match written(new) {
                    Err(e) => r matches Err(m) && m@ == e,
                    Ok(t) => r matches Ok(Some(edit)) && edit.text@ == t && edit.session
                        == event_has(present_hooks(v)->0, SESSION_EVENT@, SESSION_MARKER@)
                        && edit.prompt == event_has(
                        present_hooks(v)->0,
                        PROMPT_EVENT@,
                        PROMPT_MARKER@,
                    ),
                },
            },
        },
{
    match read_settings(text, path) {
        Err(e) => Err(e),
        Ok(v) => match remove_hooks(v) {
            None => Ok(None),
            Some((new, session, prompt)) => match settings_text(new) {
                Err(e) => Err(e),
                Ok(t) => Ok(Some(SettingsEdit { text: t, session, prompt })),
            },
        },
    }
}


// ---- what holds of the hooks ----

/// The new entry is found by the marker that its command holds.
proof fn lemma_new_entry(cmd: Seq<char>, marker: Seq<char>)
    ensures
        inner_hooks(hook_entry(cmd)) == Some(seq![command_hook(cmd)]),
        entry_has(hook_entry(cmd), marker) == has_substring(cmd, marker),
{
    lemma_names();
    let inner = seq![command_hook(cmd)];
    assert(str_field(command_hook(cmd), "command"@) == Some(cmd));
    if has_substring(cmd, marker) {
        assert(command_has(inner[0], marker));
    }
}

/// The entries with one more, which has the marker.
proof fn lemma_more_entries(entries: Seq<JsonView>, e: JsonView, marker: Seq<char>)
    ensures
        any_has(entries.push(e), marker) == (any_has(entries, marker) || entry_has(e, marker)),
{
    let more = entries.push(e);
    if any_has(entries, marker) {
        let i = choose|i: int| 0 <= i < entries.len() && entry_has(#[trigger] entries[i], marker);
        assert(entry_has(more[i], marker));
    }
    if entry_has(e, marker) {
        assert(entry_has(more[entries.len() as int], marker));
    }
    if any_has(more, marker) {
        let i = choose|i: int| 0 <= i < more.len() && entry_has(#[trigger] more[i], marker);
        if i < entries.len() {
            assert(entry_has(entries[i], marker));
        }
    }
}

/// Adding a hook whose command holds its marker makes the marker present; adding it
/// again changes nothing.
pub proof fn law_hook_added_once(
    hooks: Map<Seq<char>, JsonView>,
    event: Seq<char>,
    cmd: Seq<char>,
    marker: Seq<char>,
)
    requires
        event_is_list(hooks, event),
        has_substring(cmd, marker),
    ensures
        event_has(with_hook(hooks, event, cmd, marker), event, marker),
        with_hook(with_hook(hooks, event, cmd, marker), event, cmd, marker) == with_hook(
            hooks,
            event,
            cmd,
            marker,
        ),
{
    lemma_new_entry(cmd, marker);
    lemma_more_entries(event_entries(hooks, event), hook_entry(cmd), marker);
}

/// Adding a hook touches no other event, and leaves the entries of its own event in
/// their places.
pub proof fn law_adding_keeps_other_hooks(
    hooks: Map<Seq<char>, JsonView>,
    event: Seq<char>,
    cmd: Seq<char>,
    marker: Seq<char>,
)
    ensures
        with_hook(hooks, event, cmd, marker).remove(event) == hooks.remove(event),
        event_entries(hooks, event).is_prefix_of(
            event_entries(with_hook(hooks, event, cmd, marker), event),
        ),
{
    let after = with_hook(hooks, event, cmd, marker);
    assert(after.remove(event) =~= hooks.remove(event));
    let entries = event_entries(hooks, event);
    assert(entries.is_prefix_of(entries.push(hook_entry(cmd))));
    assert(entries.is_prefix_of(entries));
}

/// The settings are such that both hooks can be put in.
pub open spec fn takes_hooks(settings: JsonView) -> bool {
    events_are_lists(settings) && hooked(settings) is Ok
}

/// Installing twice is installing once: the second time finds both hooks in place
/// and leaves the settings as they are.
pub proof fn law_install_is_idempotent(settings: JsonView)
    requires
        takes_hooks(settings),
    ensures
        takes_hooks(hooked(settings)->Ok_0),
        hooked(hooked(settings)->Ok_0) == hooked(settings),
        missing_hooks(hooked(settings)->Ok_0) == (false, false),
{
    lemma_names();
    let m = settings->Object_0;
    let h = settings_hooks(m)->Object_0;
    let mid = with_hook(h, SESSION_EVENT@, SESSION_HOOK_CMD@, SESSION_MARKER@);
    let both = with_both(h);
    law_hook_added_once(h, SESSION_EVENT@, SESSION_HOOK_CMD@, SESSION_MARKER@);
    law_hook_added_once(mid, PROMPT_EVENT@, PROMPT_HOOK_CMD@, PROMPT_MARKER@);
    assert(both.contains_key(SESSION_EVENT@) && both[SESSION_EVENT@] == mid[SESSION_EVENT@]);
    assert(with_both(both) == both);
    let new = m.insert("hooks"@, JsonView::Object(both));
    assert(new.insert("hooks"@, JsonView::Object(both)) =~= new);
}

/// Nothing that carries the marker is left among the entries.
proof fn lemma_entries_without(entries: Seq<JsonView>, marker: Seq<char>)
    ensures
        !any_has(entries_without(entries, marker), marker),
        entries_without(entries_without(entries, marker), marker) == entries_without(
            entries,
            marker,
        ),
    decreases entries.len(),
{
    if entries.len() > 0 {
        lemma_entries_without(entries.drop_last(), marker);
        let rest = entries_without(entries.drop_last(), marker);
        let last = entries.last();
        if let Some(inner) = inner_hooks(last) {
            lemma_hooks_without(inner, marker);
            let left = hooks_without(inner, marker);
            if left.len() > 0 {
                lemma_hooks_without(left, marker);
                let e = entry_without(last, marker)->0;
                assert(inner_hooks(e) == Some(left));
                assert((e->Object_0).insert("hooks"@, JsonView::Array(left)) =~= e->Object_0);
                lemma_more_entries(rest, e, marker);
                assert(rest.push(e).drop_last() == rest);
            }
        } else {
            lemma_more_entries(rest, last, marker);
            assert(rest.push(last).drop_last() == rest);
        }
    }
}

/// Removing the hooks of an event leaves none that the marker finds, and removing
/// them again changes nothing.
pub proof fn law_hook_removed_for_good(
    hooks: Map<Seq<char>, JsonView>,
    event: Seq<char>,
    marker: Seq<char>,
)
    ensures
        !event_has(without_hook(hooks, event, marker), event, marker),
        without_hook(without_hook(hooks, event, marker), event, marker) == without_hook(
            hooks,
            event,
            marker,
        ),
{
    if hooks.contains_key(event) && hooks[event] is Array {
        lemma_entries_without(hooks[event]->Array_0, marker);
        let once = without_hook(hooks, event, marker);
        assert(without_hook(once, event, marker) =~= once);
    }
}

/// Uninstalling twice is uninstalling once, and leaves neither hook behind.
pub proof fn law_uninstall_is_idempotent(settings: JsonView)
    requires
        unhooked(settings) is Some,
    ensures
        unhooked(unhooked(settings)->0) == unhooked(settings),
        !event_has(present_hooks(unhooked(settings)->0)->0, SESSION_EVENT@, SESSION_MARKER@),
        !event_has(present_hooks(unhooked(settings)->0)->0, PROMPT_EVENT@, PROMPT_MARKER@),
{
    lemma_names();
    let m = settings->Object_0;
    let h = present_hooks(settings)->0;
    let mid = without_hook(h, SESSION_EVENT@, SESSION_MARKER@);
    let neither = without_both(h);
    law_hook_removed_for_good(h, SESSION_EVENT@, SESSION_MARKER@);
    law_hook_removed_for_good(mid, PROMPT_EVENT@, PROMPT_MARKER@);
    assert(neither.contains_key(SESSION_EVENT@) == mid.contains_key(SESSION_EVENT@));
    assert(neither.contains_key(SESSION_EVENT@) ==> neither[SESSION_EVENT@]
        == mid[SESSION_EVENT@]);
    assert(without_hook(neither, SESSION_EVENT@, SESSION_MARKER@) =~= neither) by {
        if neither.contains_key(SESSION_EVENT@) && neither[SESSION_EVENT@] is Array {
            let left = entries_without(neither[SESSION_EVENT@]->Array_0, SESSION_MARKER@);
            lemma_entries_without(h[SESSION_EVENT@]->Array_0, SESSION_MARKER@);
            assert(left == neither[SESSION_EVENT@]->Array_0);
        }
    }
    let new = m.insert("hooks"@, JsonView::Object(neither));
    assert(new.insert("hooks"@, JsonView::Object(neither)) =~= new);
}

/// An entry that removing hooks has no reason to touch: none of its hooks has the
/// marker, and where it lists hooks it lists at least one.
pub open spec fn foreign_entry(entry: JsonView, marker: Seq<char>) -> bool {
    !entry_has(entry, marker) && (inner_hooks(entry) matches Some(inner) ==> inner.len() > 0)
}

/// All entries are foreign.
pub open spec fn all_foreign(entries: Seq<JsonView>, marker: Seq<char>) -> bool {
    forall|i: int| 0 <= i < entries.len() ==> foreign_entry(#[trigger] entries[i], marker)
}

proof fn lemma_foreign_entry(entry: JsonView, marker: Seq<char>)
    requires
        foreign_entry(entry, marker),
    ensures
        entry_without(entry, marker) == Some(entry),
{
    if let Some(inner) = inner_hooks(entry) {
        lemma_hooks_without(inner, marker);
        assert((entry->Object_0).insert("hooks"@, JsonView::Array(inner)) =~= entry->Object_0);
    }
}

proof fn lemma_all_foreign(entries: Seq<JsonView>, marker: Seq<char>)
    requires
        all_foreign(entries, marker),
    ensures
        entries_without(entries, marker) == entries,
    decreases entries.len(),
{
    if entries.len() > 0 {
        let front = entries.drop_last();
        assert forall|i: int| 0 <= i < front.len() implies foreign_entry(
            #[trigger] front[i],
            marker,
        ) by {
            assert(front[i] == entries[i]);
        }
        lemma_all_foreign(front, marker);
        assert(foreign_entry(entries[entries.len() - 1], marker));
        lemma_foreign_entry(entries.last(), marker);
        assert(front.push(entries.last()) =~= entries);
    }
}

proof fn lemma_foreign_stay(entries: Seq<JsonView>, marker: Seq<char>, i: int)
    requires
        0 <= i < entries.len(),
        foreign_entry(entries[i], marker),
    ensures
        entries_without(entries, marker).contains(entries[i]),
    decreases entries.len(),
{
    let rest = entries_without(entries.drop_last(), marker);
    if i == entries.len() - 1 {
        lemma_foreign_entry(entries[i], marker);
        let all = rest.push(entries[i]);
        assert(all[all.len() - 1] == entries[i]);
    } else {
        assert(entries.drop_last()[i] == entries[i]);
        lemma_foreign_stay(entries.drop_last(), marker, i);
        let at = rest.index_of(entries[i]);
        if let Some(e) = entry_without(entries.last(), marker) {
            assert(rest.push(e)[at] == entries[i]);
        }
    }
}

/// Removing hooks touches no other event, and keeps every entry of its own event
/// that has hooks, none of which the marker finds.
pub proof fn law_removing_keeps_other_hooks(
    hooks: Map<Seq<char>, JsonView>,
    event: Seq<char>,
    marker: Seq<char>,
)
    requires
        event_is_list(hooks, event),
    ensures
        without_hook(hooks, event, marker).remove(event) == hooks.remove(event),
        forall|i: int|
            0 <= i < event_entries(hooks, event).len() && foreign_entry(
                #[trigger] event_entries(hooks, event)[i],
                marker,
            ) ==> event_entries(without_hook(hooks, event, marker), event).contains(
                event_entries(hooks, event)[i],
            ),
{
    assert(without_hook(hooks, event, marker).remove(event) =~= hooks.remove(event));
    let entries = event_entries(hooks, event);
    assert forall|i: int|
        0 <= i < entries.len() && foreign_entry(
            #[trigger] entries[i],
            marker,
        ) implies event_entries(without_hook(hooks, event, marker), event).contains(entries[i]) by {
        lemma_foreign_stay(entries, marker, i);
    }
}

/// What there is for an event is what removing hooks gives back: nothing, or a list
/// with at least one entry, all of them foreign.
pub open spec fn undone_by_removing(
    hooks: Map<Seq<char>, JsonView>,
    event: Seq<char>,
    marker: Seq<char>,
) -> bool {
    hooks.contains_key(event) ==> hooks[event] is Array && (hooks[event]->Array_0).len() > 0
        && all_foreign(hooks[event]->Array_0, marker)
}

/// Removing a hook that was just added gives the hooks back as they were.
pub proof fn law_removing_undoes_adding(
    hooks: Map<Seq<char>, JsonView>,
    event: Seq<char>,
    cmd: Seq<char>,
    marker: Seq<char>,
)
    requires
        undone_by_removing(hooks, event, marker),
        has_substring(cmd, marker),
    ensures
        without_hook(with_hook(hooks, event, cmd, marker), event, marker) == hooks,
{
    let entries = event_entries(hooks, event);
    let e = hook_entry(cmd);
    lemma_new_entry(cmd, marker);
    lemma_hooks_without(seq![command_hook(cmd)], marker);
    assert(!any_has(entries, marker));
    assert(all_foreign(entries, marker));
    lemma_all_foreign(entries, marker);
    let more = entries.push(e);
    assert(more.drop_last() == entries);
    assert(command_has(seq![command_hook(cmd)][0], marker));
    assert(entry_without(e, marker) is None);
    assert(entries_without(more, marker) == entries);
    assert(without_hook(with_hook(hooks, event, cmd, marker), event, marker) =~= hooks);
}

/// Uninstalling gives back the settings as they were before installing, where they
/// had an object of hooks in which what there was for either event is what removing
/// gives back.
pub proof fn law_uninstall_undoes_install(settings: JsonView)
    requires
        present_hooks(settings) matches Some(h) && undone_by_removing(
            h,
            SESSION_EVENT@,
            SESSION_MARKER@,
        ) && undone_by_removing(h, PROMPT_EVENT@, PROMPT_MARKER@),
    ensures
        hooked(settings) is Ok,
        unhooked(hooked(settings)->Ok_0) == Some(settings),
{
    lemma_names();
    let m = settings->Object_0;
    let h = present_hooks(settings)->0;
    let se = SESSION_EVENT@;
    let pe = PROMPT_EVENT@;
    let mid = with_hook(h, se, SESSION_HOOK_CMD@, SESSION_MARKER@);
    let both = with_both(h);
    law_removing_undoes_adding(h, se, SESSION_HOOK_CMD@, SESSION_MARKER@);
    law_removing_undoes_adding(h, pe, PROMPT_HOOK_CMD@, PROMPT_MARKER@);
    law_adding_keeps_other_hooks(h, se, SESSION_HOOK_CMD@, SESSION_MARKER@);
    let prompted = with_hook(h, pe, PROMPT_HOOK_CMD@, PROMPT_MARKER@);
    assert(without_hook(both, se, SESSION_MARKER@) =~= prompted) by {
        assert(both.contains_key(se) == mid.contains_key(se));
        assert(both.contains_key(se) ==> both[se] == mid[se]);
        assert(without_hook(mid, se, SESSION_MARKER@) == h);
        assert forall|k: Seq<char>| #[trigger]
            without_hook(both, se, SESSION_MARKER@).dom().contains(
                k,
            ) == prompted.dom().contains(k) by {
            assert(h.contains_key(k) == without_hook(mid, se, SESSION_MARKER@).contains_key(k));
        }
        assert forall|k: Seq<char>| #[trigger]
            prompted.dom().contains(k) implies without_hook(both, se, SESSION_MARKER@)[k]
            == prompted[k] by {
            if k != pe {
                assert(h[k] == without_hook(mid, se, SESSION_MARKER@)[k]);
            }
        }
    }
    assert(without_both(both) == h);
    assert(m.insert("hooks"@, JsonView::Object(both)).insert("hooks"@, JsonView::Object(h)) =~= m);
}


/// Installing and uninstalling change nothing in the settings but the hooks of the
/// two events.
pub proof fn law_other_settings_stay(settings: JsonView)
    ensures
        hooked(settings) matches Ok(new) ==> (new->Object_0).remove("hooks"@) == (
        settings->Object_0).remove("hooks"@) && (settings_hooks(new->Object_0)->Object_0).remove(
            SESSION_EVENT@,
        ).remove(PROMPT_EVENT@) == (settings_hooks(settings->Object_0)->Object_0).remove(
            SESSION_EVENT@,
        ).remove(PROMPT_EVENT@),
        unhooked(settings) matches Some(new) ==> (new->Object_0).remove("hooks"@) == (
        settings->Object_0).remove("hooks"@) && (settings_hooks(new->Object_0)->Object_0).remove(
            SESSION_EVENT@,
        ).remove(PROMPT_EVENT@) == (settings_hooks(settings->Object_0)->Object_0).remove(
            SESSION_EVENT@,
        ).remove(PROMPT_EVENT@),
{
    let m = settings->Object_0;
    let h = settings_hooks(m)->Object_0;
    if let Ok(new) = hooked(settings) {
        assert((new->Object_0).remove("hooks"@) =~= m.remove("hooks"@));
        assert(with_both(h).remove(SESSION_EVENT@).remove(PROMPT_EVENT@) =~= h.remove(
            SESSION_EVENT@,
        ).remove(PROMPT_EVENT@));
    }
    if let Some(new) = unhooked(settings) {
        assert((new->Object_0).remove("hooks"@) =~= m.remove("hooks"@));
        assert(without_both(h).remove(SESSION_EVENT@).remove(PROMPT_EVENT@) =~= h.remove(
            SESSION_EVENT@,
        ).remove(PROMPT_EVENT@));
    }
}

/// A hook is found by a marker where its command is a text that holds the marker, and
/// nowhere else.
pub proof fn law_hooks_are_found_by_command(hook: JsonView, marker: Seq<char>)
    ensures
        command_has(hook, marker) <==> hook is Object && (hook->Object_0).contains_key("command"@)
            && (hook->Object_0)["command"@] is Str && exists|a: Seq<char>, b: Seq<char>|
            (hook->Object_0)["command"@]->Str_0 == #[trigger] (a + marker + b),
{
    if hook is Object && (hook->Object_0).contains_key("command"@) && (
    hook->Object_0)["command"@] is Str {
        law_substring((hook->Object_0)["command"@]->Str_0, marker);
    }
}

/// An entry is found by a marker where one of the hooks that it lists is, and nowhere else;
/// a list of entries where one of them is.
pub proof fn law_entries_are_found_by_hook(
    entries: Seq<JsonView>,
    entry: JsonView,
    marker: Seq<char>,
)
    ensures
        entry_has(entry, marker) <==> lists_hooks(entry) && exists|i: int|
            0 <= i < listed_hooks(entry).len() && command_has(
                #[trigger] listed_hooks(entry)[i],
                marker,
            ),
        !any_has(Seq::empty(), marker),
        any_has(entries.push(entry), marker) <==> any_has(entries, marker) || entry_has(
            entry,
            marker,
        ),
{
    let more = entries.push(entry);
    assert(more[entries.len() as int] == entry);
    if any_has(entries, marker) {
        let i = choose|i: int| 0 <= i < entries.len() && entry_has(#[trigger] entries[i], marker);
        assert(more[i] == entries[i]);
    }
    if any_has(more, marker) {
        let i = choose|i: int| 0 <= i < more.len() && entry_has(#[trigger] more[i], marker);
        if i < entries.len() {
            assert(more[i] == entries[i]);
        }
    }
    if lists_hooks(entry) {
        let hs = listed_hooks(entry);
        assert(inner_hooks(entry) == Some(hs));
        if exists|i: int| 0 <= i < hs.len() && command_has(#[trigger] hs[i], marker) {
            assert(hooks_have(hs, marker));
        }
        if hooks_have(hs, marker) {
            let i = choose|i: int| 0 <= i < hs.len() && command_has(#[trigger] hs[i], marker);
            assert(command_has(listed_hooks(entry)[i], marker));
        }
    }
}

/// The entry is an object with a list of hooks.
pub open spec fn lists_hooks(entry: JsonView) -> bool {
    entry is Object && (entry->Object_0).contains_key("hooks"@) && (
    entry->Object_0)["hooks"@] is Array
}

/// The hooks that an entry lists.
pub open spec fn listed_hooks(entry: JsonView) -> Seq<JsonView> {
    (entry->Object_0)["hooks"@]->Array_0
}

/// Of a list of hooks exactly those stay, in their order, that the marker does not find.
pub proof fn law_other_hooks_stay(hooks: Seq<JsonView>, marker: Seq<char>)
    ensures
        hooks_without(hooks, marker) == hooks.filter(|h: JsonView| !command_has(h, marker)),
    decreases hooks.len(),
{
    reveal(Seq::filter);
    let keep = |h: JsonView| !command_has(h, marker);
    if hooks.len() > 0 {
        law_other_hooks_stay(hooks.drop_last(), marker);
    }
}

/// An entry without the hooks that a marker finds is the entry as it was but for its list:
/// everything else in it stays. It is gone where none of its hooks is left, and stays as it
/// is where it lists none.
pub proof fn law_rest_of_an_entry_stays(
    entries: Seq<JsonView>,
    entry: JsonView,
    marker: Seq<char>,
)
    ensures
        ({
            let left = listed_hooks(entry).filter(|h: JsonView| !command_has(h, marker));
            &&& !lists_hooks(entry) ==> entry_without(entry, marker) == Some(entry)
            &&& lists_hooks(entry) && left.len() == 0 ==> entry_without(entry, marker) is None
            &&& lists_hooks(entry) && left.len() > 0 ==> (entry_without(entry, marker) matches Some(
                JsonView::Object(e),
            ) && e.contains_key("hooks"@) && e["hooks"@] == JsonView::Array(left) && e.remove(
                "hooks"@,
            ) == (entry->Object_0).remove("hooks"@))
        }),
        entries_without(Seq::empty(), marker) == Seq::<JsonView>::empty(),
        entry_without(entry, marker) matches Some(e) ==> entries_without(
            entries.push(entry),
            marker,
        ) == entries_without(entries, marker).push(e),
        entry_without(entry, marker) is None ==> entries_without(entries.push(entry), marker)
            == entries_without(entries, marker),
{
    assert(entries.push(entry).drop_last() =~= entries);
    if lists_hooks(entry) {
        let inner = listed_hooks(entry);
        assert(inner_hooks(entry) == Some(inner));
        law_other_hooks_stay(inner, marker);
        let left = hooks_without(inner, marker);
        let m = entry->Object_0;
        assert(m.insert("hooks"@, JsonView::Array(left)).remove("hooks"@) =~= m.remove("hooks"@));
    } else {
        assert(inner_hooks(entry) is None);
    }
}

/// An entry runs a command and does nothing else: it lists one hook, which has the type of a
/// command and that command.
pub open spec fn runs_only(entry: JsonView, cmd: Seq<char>) -> bool {
    &&& lists_hooks(entry)
    &&& (entry->Object_0).dom() == set!["hooks"@]
    &&& listed_hooks(entry).len() == 1
    &&& listed_hooks(entry)[0] matches JsonView::Object(hook) && {
        &&& hook.dom() == set!["type"@, "command"@]
        &&& hook["type"@] == JsonView::Str("command"@)
        &&& hook["command"@] == JsonView::Str(cmd)
    }
}

/// A hook is added as one entry more at the end of the list of its event, which runs the
/// command and does nothing else; where the marker finds a hook of the event, nothing is
/// added.
pub proof fn law_what_is_added(
    hooks: Map<Seq<char>, JsonView>,
    event: Seq<char>,
    cmd: Seq<char>,
    marker: Seq<char>,
)
    ensures
        ({
            let before = if hooks.contains_key(event) {
                hooks[event]->Array_0
            } else {
                Seq::empty()
            };
            let after = with_hook(hooks, event, cmd, marker);
            &&& any_has(before, marker) ==> after == hooks
            &&& !any_has(before, marker) ==> after.contains_key(event) && (
            after[event] matches JsonView::Array(list) && list.len() == before.len() + 1
                && list.drop_last() == before && runs_only(list.last(), cmd))
        }),
{
    let before = event_entries(hooks, event);
    let e = hook_entry(cmd);
    assert(before.push(e).drop_last() =~= before);
    reveal_strlit("type");
    reveal_strlit("command");
    assert("type"@.len() == 4 && "command"@.len() == 7);
    assert((e->Object_0).dom() =~= set!["hooks"@]);
    assert((command_hook(cmd)->Object_0).dom() =~= set!["type"@, "command"@]);
    assert(runs_only(e, cmd));
}

/// Of the hooks of an event the entries are left that have something left; the event is gone
/// where none is.
pub proof fn law_what_is_removed(
    hooks: Map<Seq<char>, JsonView>,
    event: Seq<char>,
    marker: Seq<char>,
)
    requires
        hooks.contains_key(event),
        hooks[event] is Array,
    ensures
        ({
            let left = entries_without(hooks[event]->Array_0, marker);
            let after = without_hook(hooks, event, marker);
            &&& after.contains_key(event) <==> left.len() > 0
            &&& left.len() > 0 ==> after[event] == JsonView::Array(left)
        }),
{
}

/// The settings after installing: the list of either event has one entry more where its hook
/// was missing, which runs the command of the tool, and is as it was where the hook was
/// there.
pub proof fn law_installed_hooks(settings: Map<Seq<char>, JsonView>)
    requires
        takes_hooks(JsonView::Object(settings)),
    ensures
        hooked(JsonView::Object(settings)) matches Ok(JsonView::Object(new)) && new.contains_key(
            "hooks"@,
        ) && (new["hooks"@] matches JsonView::Object(h) && {
            let old = if settings.contains_key("hooks"@) {
                settings["hooks"@]->Object_0
            } else {
                Map::empty()
            };
            let missing = missing_hooks(JsonView::Object(settings));
            &&& missing.0 <==> !any_has(event_entries(old, "SessionStart"@), "gloss review"@)
            &&& missing.1 <==> !any_has(event_entries(old, "UserPromptSubmit"@), "gloss snap"@)
            &&& event_entries(h, "SessionStart"@).len() == event_entries(
                old,
                "SessionStart"@,
            ).len() + (if missing.0 {
                1int
            } else {
                0int
            })
            &&& event_entries(h, "UserPromptSubmit"@).len() == event_entries(
                old,
                "UserPromptSubmit"@,
            ).len() + (if missing.1 {
                1int
            } else {
                0int
            })
            &&& missing.0 ==> runs_only(
                event_entries(h, "SessionStart"@).last(),
                "(gloss review \"$(basename \"$PWD\")\" >/dev/null 2>&1 &) || true"@,
            )
            &&& missing.1 ==> runs_only(
                event_entries(h, "UserPromptSubmit"@).last(),
                "gloss snap \"turn-$(date +%H%M%S)\" >/dev/null 2>&1 || true"@,
            )
        }),
{
    lemma_names();
    let h = settings_hooks(settings)->Object_0;
    let mid = with_hook(h, SESSION_EVENT@, SESSION_HOOK_CMD@, SESSION_MARKER@);
    law_what_is_added(h, SESSION_EVENT@, SESSION_HOOK_CMD@, SESSION_MARKER@);
    law_what_is_added(mid, PROMPT_EVENT@, PROMPT_HOOK_CMD@, PROMPT_MARKER@);
    let both = with_both(h);
    assert(event_entries(mid, PROMPT_EVENT@) == event_entries(h, PROMPT_EVENT@));
    assert(event_entries(both, SESSION_EVENT@) == event_entries(mid, SESSION_EVENT@));
}

/// Settings that are no object, and hooks that are none, are refused; otherwise installing
/// goes through. Uninstalling has something to do exactly where there is an object of hooks.
pub proof fn law_settings_that_are_refused(settings: JsonView)
    ensures
        !(settings is Object) ==> hooked(settings) == Err::<JsonView, Seq<char>>(
            "settings.json root is not an object"@,
        ),
        settings matches JsonView::Object(m) ==> (hooked(settings) is Ok <==> (m.contains_key(
            "hooks"@,
        ) ==> m["hooks"@] is Object)),
        settings matches JsonView::Object(m) ==> (hooked(settings) matches Err(e) ==> e
            == "settings.json `hooks` is not an object"@),
        unhooked(settings) is Some <==> (settings matches JsonView::Object(m) && m.contains_key(
            "hooks"@,
        ) && m["hooks"@] is Object),
        settings matches JsonView::Object(m) ==> ((m.contains_key("hooks"@) && m["hooks"@] is Object)
            ==> (events_are_lists(settings) <==> {
            let h = m["hooks"@]->Object_0;
            &&& h.contains_key("SessionStart"@) ==> h["SessionStart"@] is Array
            &&& h.contains_key("UserPromptSubmit"@) ==> h["UserPromptSubmit"@] is Array
        })),
{
}

/// A settings file that is missing or blank holds an empty object; any other holds what the
/// parser makes of it, and what it says against it is said with the path.
pub proof fn law_settings_are_read(text: Seq<char>, path: Seq<char>)
    ensures
        settings_of(None, path) == Ok::<JsonView, Seq<char>>(JsonView::Object(Map::empty())),
        all_space(text) ==> settings_of(Some(text), path) == Ok::<JsonView, Seq<char>>(
            JsonView::Object(Map::empty()),
        ),
        !all_space(text) ==> (parsed_text(text) matches Ok(v) ==> settings_of(Some(text), path)
            == Ok::<JsonView, Seq<char>>(v)),
        !all_space(text) ==> (parsed_text(text) matches Err(e) ==> settings_of(Some(text), path)
            == Err::<JsonView, Seq<char>>("parse "@ + path + ": "@ + e)),
{
    if all_space(text) {
        law_trim(text, Seq::empty(), Seq::empty());
        assert(text + Seq::<char>::empty() + Seq::<char>::empty() =~= text);
    } else {
        law_trim_leaves_text(text);
    }
}

/// What is written is the text that the settings have, or why they have none.
pub proof fn law_settings_are_written(settings: JsonView)
    ensures
        pretty_text(settings) matches Ok(s) ==> written(settings) == Ok::<Seq<char>, Seq<char>>(s),
        pretty_text(settings) matches Err(e) ==> written(settings) == Err::<Seq<char>, Seq<char>>(
            "serialize: "@ + e,
        ),
{
}

/// A hook of an event is found where the event has a list in which the marker finds one, and
/// nowhere else.
pub proof fn law_events_with_a_hook(
    hooks: Map<Seq<char>, JsonView>,
    event: Seq<char>,
    list: Seq<JsonView>,
    marker: Seq<char>,
)
    ensures
        event_has(hooks.insert(event, JsonView::Array(list)), event, marker) <==> any_has(
            list,
            marker,
        ),
        !event_has(hooks.remove(event), event, marker),
        event_has(hooks, event, marker) ==> hooks.contains_key(event) && hooks[event] is Array,
        event_is_list(hooks.insert(event, JsonView::Array(list)), event),
        event_is_list(hooks.remove(event), event),
        event_is_list(hooks, event) && hooks.contains_key(event) ==> hooks[event] is Array,
        event_entries(hooks.insert(event, JsonView::Array(list)), event) == list,
        event_entries(hooks.remove(event), event) == Seq::<JsonView>::empty(),
{
}

} // verus!
