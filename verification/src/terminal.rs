//! The terminal profile registrar.
//!
//! The terminal's settings live in a JSON document owned by the terminal
//! itself: the registrar decodes only the `profiles.list` path, treats
//! every other field as an opaque value to be written back untouched, and
//! upserts one launcher entry keyed by the profile id. An entry that is
//! already present wins: it is deliberately not refreshed.
//!
//! The document may carry `//` and `/* */` comments; they are blanked
//! out, character for character, before structural parsing.

use vstd::prelude::*;
use crate::errors::DragonError;
use crate::strutil::{str_concat, str_concat3, str_eq};

verus! {

/// A JSON value. A number keeps the literal it was written with, so that
/// rewriting the document never reformats a value this tool does not
/// understand.
#[derive(Debug)]
pub enum Json {
    Null,
    Bool(bool),
    Num(String),
    Str(String),
    Arr(Vec<Json>),
    Obj(Vec<(String, Json)>),
}

/// The members of an object, or nothing for any other value.
pub open spec fn obj_entries(j: Json) -> Seq<(String, Json)> {
    match j {
        Json::Obj(es) => es@,
        _ => Seq::<(String, Json)>::empty(),
    }
}

/// The elements of an array, or nothing for any other value.
pub open spec fn json_arr(j: Json) -> Seq<Json> {
    match j {
        Json::Arr(v) => v@,
        _ => Seq::<Json>::empty(),
    }
}

/// Index of the first member with this key, or `-1`.
pub open spec fn first_key(es: Seq<(String, Json)>, key: Seq<char>) -> int
    decreases es.len(),
{
    if es.len() == 0 {
        -1
    } else if es[0].0@ == key {
        0
    } else {
        let r = first_key(es.drop_first(), key);
        if r == -1 {
            -1
        } else {
            r + 1
        }
    }
}

/// `first_key` points at the first matching member, and is `-1` exactly
/// when no member matches.
pub proof fn lemma_first_key_props(es: Seq<(String, Json)>, key: Seq<char>)
    ensures
        first_key(es, key) >= -1,
        first_key(es, key) >= 0 ==> first_key(es, key) < es.len() && es[first_key(es, key)].0@
            == key && forall|j: int| 0 <= j < first_key(es, key) ==> es[j].0@ != key,
        first_key(es, key) == -1 ==> forall|j: int| 0 <= j < es.len() ==> es[j].0@ != key,
    decreases es.len(),
{
    if es.len() > 0 && es[0].0@ != key {
        let t = es.drop_first();
        lemma_first_key_props(t, key);
        let r = first_key(t, key);
        if r == -1 {
            assert forall|k: int| 0 <= k < es.len() implies es[k].0@ != key by {
                if k > 0 {
                    assert(t[k - 1] == es[k]);
                    assert(t[k - 1].0@ != key);
                }
            }
        } else {
            assert(es[r + 1] == t[r]);
            assert forall|j: int| 0 <= j < r + 1 implies es[j].0@ != key by {
                if j > 0 {
                    assert(t[j - 1] == es[j]);
                    assert(t[j - 1].0@ != key);
                }
            }
        }
    }
}

/// The value of the first member with this key, in an object.
pub open spec fn obj_get(j: Json, key: Seq<char>) -> Option<Json> {
    let es = obj_entries(j);
    let i = first_key(es, key);
    if j is Obj && i >= 0 {
        Some(es[i].1)
    } else {
        None
    }
}

/// Index of the first member with this key, if any.
fn find_key(es: &Vec<(String, Json)>, key: &str) -> (r: Option<usize>)
    ensures
        match r {
            Some(i) => i == first_key(es@, key@) && i < es@.len() && es@[i as int].0@ == key@
                && forall|j: int| 0 <= j < i ==> es@[j].0@ != key@,
            None => first_key(es@, key@) == -1 && forall|j: int|
                0 <= j < es@.len() ==> es@[j].0@ != key@,
        },
{
    let mut i: usize = 0;
    while i < es.len()
        invariant
            i <= es@.len(),
            forall|j: int| 0 <= j < i ==> es@[j].0@ != key@,
        decreases es@.len() - i,
    {
        if str_eq(es[i].0.as_str(), key) {
            proof {
                lemma_first_key_props(es@, key@);
                let fk = first_key(es@, key@);
                if fk == -1 {
                    assert(es@[i as int].0@ != key@);
                } else if fk < i {
                    assert(es@[fk].0@ != key@);
                } else if fk > i {
                    assert(es@[i as int].0@ != key@);
                }
            }
            return Some(i);
        }
        i += 1;
    }
    proof {
        lemma_first_key_props(es@, key@);
        let fk = first_key(es@, key@);
        if fk >= 0 {
            assert(es@[fk].0@ != key@);
        }
    }
    None
}

/// A profile id in its canonical braces.
pub open spec fn braced_guid(g: Seq<char>) -> Seq<char> {
    seq!['{'] + g + seq!['}']
}

/// Formats a profile id with its canonical braces.
pub fn guid_with_braces(wt_profile_guid: &str) -> (r: String)
    ensures
        r@ == braced_guid(wt_profile_guid@),
{
    proof {
        reveal_strlit("{");
        reveal_strlit("}");
        assert("{"@ =~= seq!['{']);
        assert("}"@ =~= seq!['}']);
    }
    let r = str_concat3("{", wt_profile_guid, "}");
    proof {
        assert(r@ =~= braced_guid(wt_profile_guid@));
    }
    r
}

/// The command a launcher entry runs: this tool's run flow for the name.
pub fn run_commandline(wsl_name: &str) -> (r: String)
    ensures
        r@ == "dragon run -w "@ + wsl_name@,
{
    str_concat("dragon run -w ", wsl_name)
}

/// The entry's `guid` member is the given braced id.
pub open spec fn entry_guid_is(e: Json, braced: Seq<char>) -> bool {
    obj_get(e, "guid"@) matches Some(g) && (g matches Json::Str(s) && s@ == braced)
}

/// Does this list entry carry the braced id as its `guid`?
fn entry_matches(e: &Json, braced: &str) -> (r: bool)
    ensures
        r == entry_guid_is(*e, braced@),
{
    match e {
        Json::Obj(es) => match find_key(es, "guid") {
            Some(i) => match &es[i].1 {
                Json::Str(s) => str_eq(s.as_str(), braced),
                _ => false,
            },
            None => false,
        },
        _ => false,
    }
}

/// Is some entry of the list keyed by the braced id?
fn scan_guid(list: &Vec<Json>, braced: &str) -> (r: bool)
    ensures
        r == exists|i: int| 0 <= i < list@.len() && entry_guid_is(#[trigger] list@[i], braced@),
{
    let mut i: usize = 0;
    while i < list.len()
        invariant
            i <= list@.len(),
            forall|j: int| 0 <= j < i ==> !entry_guid_is(#[trigger] list@[j], braced@),
        decreases list@.len() - i,
    {
        if entry_matches(&list[i], braced) {
            return true;
        }
        i += 1;
    }
    false
}

/// Where the comment stripper stands after some prefix of the document.
#[derive(Debug, Clone, Copy, PartialEq, Eq, Structural)]
pub enum StripState {
    /// Plain document text.
    Code,
    /// Inside a string literal.
    InStr,
    /// Inside a string literal, right after a backslash.
    StrEsc,
    /// Right after a `/` that may open a comment.
    Slash,
    /// Inside a `//` comment.
    Line,
    /// Inside a `/* */` comment.
    Block,
    /// Inside a `/* */` comment, right after a `*`.
    BlockStar,
}

/// One character of input: the next state and what is emitted for it.
/// Comment characters are blanked to spaces; line breaks survive.
pub open spec fn strip_step(st: StripState, c: char) -> (StripState, Seq<char>) {
    match st {
        StripState::Code => if c == '"' {
            (StripState::InStr, seq![c])
        } else if c == '/' {
            (StripState::Slash, Seq::<char>::empty())
        } else {
            (StripState::Code, seq![c])
        },
        StripState::InStr => if c == '\\' {
            (StripState::StrEsc, seq![c])
        } else if c == '"' {
            (StripState::Code, seq![c])
        } else {
            (StripState::InStr, seq![c])
        },
        StripState::StrEsc => (StripState::InStr, seq![c]),
        StripState::Slash => if c == '/' {
            (StripState::Line, seq![' ', ' '])
        } else if c == '*' {
            (StripState::Block, seq![' ', ' '])
        } else if c == '"' {
            (StripState::InStr, seq!['/', c])
        } else {
            (StripState::Code, seq!['/', c])
        },
        StripState::Line => if c == '\n' {
            (StripState::Code, seq![c])
        } else {
            (StripState::Line, seq![' '])
        },
        StripState::Block => if c == '*' {
            (StripState::BlockStar, seq![' '])
        } else if c == '\n' {
            (StripState::Block, seq![c])
        } else {
            (StripState::Block, seq![' '])
        },
        StripState::BlockStar => if c == '/' {
            (StripState::Code, seq![' '])
        } else if c == '*' {
            (StripState::BlockStar, seq![' '])
        } else if c == '\n' {
            (StripState::Block, seq![c])
        } else {
            (StripState::Block, seq![' '])
        },
    }
}

/// The stripper's state after reading `s`.
pub open spec fn strip_state_of(s: Seq<char>) -> StripState
    decreases s.len(),
{
    if s.len() == 0 {
        StripState::Code
    } else {
        strip_step(strip_state_of(s.drop_last()), s.last()).0
    }
}

/// What the stripper emits while reading `s`.
pub open spec fn strip_out(s: Seq<char>) -> Seq<char>
    decreases s.len(),
{
    if s.len() == 0 {
        Seq::<char>::empty()
    } else {
        strip_out(s.drop_last()) + strip_step(strip_state_of(s.drop_last()), s.last()).1
    }
}

/// The whole document with comments blanked out: a trailing lone `/` is
/// kept as it was.
pub open spec fn strip_comments_spec(s: Seq<char>) -> Seq<char> {
    strip_out(s) + if strip_state_of(s) == StripState::Slash {
        seq!['/']
    } else {
        Seq::<char>::empty()
    }
}

/// Blanks `//` and `/* */` comments out of the document, space for
/// character, leaving strings and line breaks as they were.
pub fn strip_json_comments(text: &str) -> (r: String)
    ensures
        r@ == strip_comments_spec(text@),
{
    let len = text.unicode_len();
    let mut acc = String::new();
    let mut st = StripState::Code;
    let mut i: usize = 0;
    while i < len
        invariant
            len == text@.len(),
            i <= len,
            st == strip_state_of(text@.subrange(0, i as int)),
            acc@ == strip_out(text@.subrange(0, i as int)),
        decreases len - i,
    {
        let c = text.get_char(i);
        proof {
            assert(text@.subrange(0, i + 1).drop_last() =~= text@.subrange(0, i as int));
            assert(text@.subrange(0, i + 1).last() == text@[i as int]);
        }
        match st {
            StripState::Code => {
                if c == '"' {
                    st = StripState::InStr;
                    acc.push(c);
                } else if c == '/' {
                    st = StripState::Slash;
                } else {
                    acc.push(c);
                }
            },
            StripState::InStr => {
                if c == '\\' {
                    st = StripState::StrEsc;
                } else if c == '"' {
                    st = StripState::Code;
                }
                acc.push(c);
            },
            StripState::StrEsc => {
                st = StripState::InStr;
                acc.push(c);
            },
            StripState::Slash => {
                if c == '/' {
                    st = StripState::Line;
                    acc.push(' ');
                    acc.push(' ');
                } else if c == '*' {
                    st = StripState::Block;
                    acc.push(' ');
                    acc.push(' ');
                } else if c == '"' {
                    st = StripState::InStr;
                    acc.push('/');
                    acc.push(c);
                } else {
                    st = StripState::Code;
                    acc.push('/');
                    acc.push(c);
                }
            },
            StripState::Line => {
                if c == '\n' {
                    st = StripState::Code;
                    acc.push(c);
                } else {
                    acc.push(' ');
                }
            },
            StripState::Block => {
                if c == '*' {
                    st = StripState::BlockStar;
                    acc.push(' ');
                } else if c == '\n' {
                    acc.push(c);
                } else {
                    acc.push(' ');
                }
            },
            StripState::BlockStar => {
                if c == '/' {
                    st = StripState::Code;
                    acc.push(' ');
                } else if c == '*' {
                    acc.push(' ');
                } else if c == '\n' {
                    st = StripState::Block;
                    acc.push(c);
                } else {
                    st = StripState::Block;
                    acc.push(' ');
                }
            },
        }
        i += 1;
    }
    proof {
        assert(text@.subrange(0, len as int) =~= text@);
    }
    if let StripState::Slash = st {
        acc.push('/');
    }
    acc
}

/// The document's shape lets the registrar work: an object whose
/// `profiles` member is an object whose `list` member is an array.
pub open spec fn settings_shape_ok(doc: Json) -> bool {
    &&& doc is Obj
    &&& obj_get(doc, "profiles"@) matches Some(p) && p is Obj && (obj_get(p, "list"@)
        matches Some(l) && l is Arr)
}

/// The launcher entries of the document, in order.
pub open spec fn profiles_list(doc: Json) -> Seq<Json> {
    match obj_get(doc, "profiles"@) {
        Some(p) => match obj_get(p, "list"@) {
            Some(l) => json_arr(l),
            None => Seq::<Json>::empty(),
        },
        None => Seq::<Json>::empty(),
    }
}

/// How many entries of the list are keyed by the braced id.
pub open spec fn count_guid(list: Seq<Json>, braced: Seq<char>) -> int
    decreases list.len(),
{
    if list.len() == 0 {
        0
    } else {
        count_guid(list.drop_last(), braced) + if entry_guid_is(list.last(), braced) {
            1int
        } else {
            0int
        }
    }
}

/// An entry with the id exists exactly when the count is positive.
pub proof fn lemma_count_guid_exists(list: Seq<Json>, braced: Seq<char>)
    ensures
        0 <= count_guid(list, braced) <= list.len(),
        (exists|i: int| 0 <= i < list.len() && entry_guid_is(#[trigger] list[i], braced))
            <==> count_guid(list, braced) > 0,
    decreases list.len(),
{
    if list.len() > 0 {
        lemma_count_guid_exists(list.drop_last(), braced);
        if count_guid(list, braced) > 0 {
            if entry_guid_is(list.last(), braced) {
                assert(entry_guid_is(list[list.len() - 1], braced));
            } else {
                let i = choose|i: int|
                    0 <= i < list.drop_last().len() && entry_guid_is(
                        #[trigger] list.drop_last()[i],
                        braced,
                    );
                assert(entry_guid_is(list[i], braced));
            }
        }
        if exists|i: int| 0 <= i < list.len() && entry_guid_is(#[trigger] list[i], braced) {
            let i = choose|i: int| 0 <= i < list.len() && entry_guid_is(#[trigger] list[i], braced);
            if i < list.len() - 1 {
                assert(entry_guid_is(list.drop_last()[i], braced));
            }
        }
    }
}

/// Prepending one entry raises the count by one when it matches, and
/// keeps it otherwise.
pub proof fn lemma_count_guid_prepend(e: Json, list: Seq<Json>, braced: Seq<char>)
    ensures
        count_guid(seq![e] + list, braced) == count_guid(list, braced) + if entry_guid_is(
            e,
            braced,
        ) {
            1int
        } else {
            0int
        },
    decreases list.len(),
{
    if list.len() == 0 {
        assert(seq![e] + list =~= seq![e]);
        assert(seq![e].drop_last() =~= Seq::<Json>::empty());
        assert(seq![e].last() == e);
        assert(count_guid(Seq::<Json>::empty(), braced) == 0);
        assert(count_guid(seq![e], braced) == if entry_guid_is(e, braced) {
            1int
        } else {
            0int
        });
    } else {
        lemma_count_guid_prepend(e, list.drop_last(), braced);
        assert((seq![e] + list).drop_last() =~= seq![e] + list.drop_last());
        assert((seq![e] + list).last() == list.last());
        assert(count_guid(seq![e] + list, braced) == count_guid(seq![e] + list.drop_last(), braced)
            + if entry_guid_is(list.last(), braced) {
            1int
        } else {
            0int
        });
    }
}

/// The new launcher entry as the registrar writes it: the braced id, not
/// hidden, named after the environment, launching this tool's run flow.
pub open spec fn new_profile_entry_ok(e: Json, braced: Seq<char>, name: Seq<char>) -> bool {
    &&& e is Obj
    &&& entry_guid_is(e, braced)
    &&& obj_get(e, "hidden"@) matches Some(h) && h matches Json::Bool(b) && b == false
    &&& obj_get(e, "name"@) matches Some(nv) && (nv matches Json::Str(s) && s@ == name)
    &&& obj_get(e, "commandline"@) matches Some(cv) && (cv matches Json::Str(s) && s@
        == "dragon run -w "@ + name)
}

/// What the registrar leaves behind: the document unchanged when an entry
/// with the id already existed, else the same document with the new entry
/// prepended to `profiles.list` and every other member, one level up and
/// at the top, exactly as it was.
pub open spec fn profile_upserted(
    doc: Json,
    d: Json,
    braced: Seq<char>,
    name: Seq<char>,
    existed: bool,
) -> bool {
    &&& settings_shape_ok(doc)
    &&& settings_shape_ok(d)
    &&& existed == (exists|i: int|
        0 <= i < profiles_list(doc).len() && entry_guid_is(
            #[trigger] profiles_list(doc)[i],
            braced,
        ))
    &&& if existed {
        d == doc
    } else {
        &&& profiles_list(d).len() == profiles_list(doc).len() + 1
        &&& new_profile_entry_ok(profiles_list(d)[0], braced, name)
        &&& forall|i: int|
            0 <= i < profiles_list(doc).len() ==> profiles_list(d)[i + 1] == profiles_list(
                doc,
            )[i]
        &&& obj_entries(d).len() == obj_entries(doc).len()
        &&& forall|k: int|
            0 <= k < obj_entries(doc).len() && k != first_key(obj_entries(doc), "profiles"@)
                ==> obj_entries(d)[k] == obj_entries(doc)[k]
        &&& obj_entries(d)[first_key(obj_entries(doc), "profiles"@)].0 == obj_entries(
            doc,
        )[first_key(obj_entries(doc), "profiles"@)].0
        &&& ({
            let p = obj_entries(doc)[first_key(obj_entries(doc), "profiles"@)].1;
            let p2 = obj_entries(d)[first_key(obj_entries(doc), "profiles"@)].1;
            &&& obj_entries(p2).len() == obj_entries(p).len()
            &&& forall|k: int|
                0 <= k < obj_entries(p).len() && k != first_key(obj_entries(p), "list"@)
                    ==> obj_entries(p2)[k] == obj_entries(p)[k]
            &&& obj_entries(p2)[first_key(obj_entries(p), "list"@)].0 == obj_entries(
                p,
            )[first_key(obj_entries(p), "list"@)].0
        })
    }
}

/// Upserts the launcher entry for a profile id: a present entry wins and
/// the document comes back as it was; an absent one is prepended to
/// `profiles.list`, everything else untouched. The returned flag says
/// whether the entry already existed.
pub fn create_windows_terminal_profile(doc: Json, wt_profile_guid: &str, wsl_name: &str) -> (r:
    Result<(Json, bool), DragonError>)
    ensures
        match r {
            Ok(p) => profile_upserted(
                doc,
                p.0,
                braced_guid(wt_profile_guid@),
                wsl_name@,
                p.1,
            ),
            Err(e) => e == DragonError::ProfileSchemaInvalid && !settings_shape_ok(doc),
        },
{
    let braced = guid_with_braces(wt_profile_guid);
    // Read-only pass: validate the shape and look for the entry.
    let (pi, li, existed): (usize, usize, bool) = match &doc {
        Json::Obj(entries) => match find_key(entries, "profiles") {
            Some(pi) => match &entries[pi].1 {
                Json::Obj(pentries) => match find_key(pentries, "list") {
                    Some(li) => match &pentries[li].1 {
                        Json::Arr(list) => {
                            let found = scan_guid(list, braced.as_str());
                            proof {
                                assert(settings_shape_ok(doc));
                                assert(profiles_list(doc) == list@);
                            }
                            (pi, li, found)
                        },
                        _ => {
                            return Err(DragonError::ProfileSchemaInvalid);
                        },
                    },
                    None => {
                        return Err(DragonError::ProfileSchemaInvalid);
                    },
                },
                _ => {
                    return Err(DragonError::ProfileSchemaInvalid);
                },
            },
            None => {
                return Err(DragonError::ProfileSchemaInvalid);
            },
        },
        _ => {
            return Err(DragonError::ProfileSchemaInvalid);
        },
    };
    if existed {
        return Ok((doc, true));
    }
    // The entry is absent: rebuild the document around the prepended entry.
    let ghost doc0 = doc;
    match doc {
        Json::Obj(mut entries) => {
            let (pkey, pval) = entries.remove(pi);
            match pval {
                Json::Obj(mut pentries) => {
                    let (lkey, lval) = pentries.remove(li);
                    match lval {
                        Json::Arr(mut list) => {
                            let ghost list0 = list@;
                            let cmdline = run_commandline(wsl_name);
                            let mut members: Vec<(String, Json)> = Vec::new();
                            members.push((String::from_str("guid"), Json::Str(braced.clone())));
                            members.push((String::from_str("hidden"), Json::Bool(false)));
                            members.push((String::from_str("name"), Json::Str(String::from_str(wsl_name))));
                            members.push((String::from_str("commandline"), Json::Str(cmdline)));
                            let entry = Json::Obj(members);
                            proof {
                                reveal_strlit("guid");
                                reveal_strlit("hidden");
                                reveal_strlit("name");
                                reveal_strlit("commandline");
                                lemma_entry_members(entry, braced@, wsl_name@);
                            }
                            list.insert(0, entry);
                            pentries.insert(li, (lkey, Json::Arr(list)));
                            let p2 = Json::Obj(pentries);
                            entries.insert(pi, (pkey, p2));
                            let d = Json::Obj(entries);
                            proof {
                                lemma_first_key_props(obj_entries(d), "profiles"@);
                                let es0 = obj_entries(doc0);
                                let es2 = obj_entries(d);
                                assert(es2.len() == es0.len());
                                assert(forall|k: int|
                                    0 <= k < es0.len() && k != pi ==> es2[k] == es0[k]);
                                assert(es2[pi as int].0 == es0[pi as int].0);
                                let fk = first_key(es2, "profiles"@);
                                if fk == -1 {
                                    assert(es2[pi as int].0@ != "profiles"@);
                                } else if fk < pi {
                                    assert(es2[fk].0@ == es0[fk].0@);
                                    assert(es0[fk].0@ != "profiles"@);
                                } else if fk > pi {
                                    assert(es2[pi as int].0@ != "profiles"@);
                                }
                                assert(fk == pi);
                                let ps0 = obj_entries(es0[pi as int].1);
                                let ps2 = obj_entries(p2);
                                assert(ps2.len() == ps0.len());
                                assert(forall|k: int|
                                    0 <= k < ps0.len() && k != li ==> ps2[k] == ps0[k]);
                                assert(ps2[li as int].0 == ps0[li as int].0);
                                lemma_first_key_props(ps2, "list"@);
                                let fl = first_key(ps2, "list"@);
                                if fl == -1 {
                                    assert(ps2[li as int].0@ != "list"@);
                                } else if fl < li {
                                    assert(ps2[fl].0@ == ps0[fl].0@);
                                    assert(ps0[fl].0@ != "list"@);
                                } else if fl > li {
                                    assert(ps2[li as int].0@ != "list"@);
                                }
                                assert(fl == li);
                                assert(profiles_list(d) =~= seq![entry] + list0);
                                assert(profiles_list(doc0) == list0);
                                assert(forall|i: int|
                                    0 <= i < list0.len() ==> profiles_list(d)[i + 1] == list0[i]);
                            }
                            Ok((d, false))
                        },
                        _ => {
                            proof {
                                assert(false);
                            }
                            Err(DragonError::ProfileSchemaInvalid)
                        },
                    }
                },
                _ => {
                    proof {
                        assert(false);
                    }
                    Err(DragonError::ProfileSchemaInvalid)
                },
            }
        },
        _ => {
            proof {
                assert(false);
            }
            Err(DragonError::ProfileSchemaInvalid)
        },
    }
}

/// The freshly built launcher entry reads back member by member.
proof fn lemma_entry_members(e: Json, braced: Seq<char>, name: Seq<char>)
    requires
        obj_entries(e).len() == 4,
        e is Obj,
        obj_entries(e)[0].0@ == "guid"@,
        obj_entries(e)[0].1 matches Json::Str(s) && s@ == braced,
        obj_entries(e)[1].0@ == "hidden"@,
        obj_entries(e)[1].1 == Json::Bool(false),
        obj_entries(e)[2].0@ == "name"@,
        obj_entries(e)[2].1 matches Json::Str(s) && s@ == name,
        obj_entries(e)[3].0@ == "commandline"@,
        obj_entries(e)[3].1 matches Json::Str(s) && s@ == "dragon run -w "@ + name,
    ensures
        new_profile_entry_ok(e, braced, name),
{
    reveal_strlit("guid");
    reveal_strlit("hidden");
    reveal_strlit("name");
    reveal_strlit("commandline");
    let es = obj_entries(e);
    assert("hidden"@.len() == 6 && "guid"@.len() == 4 && "name"@.len() == 4
        && "commandline"@.len() == 11);
    assert("guid"@[0] == 'g' && "name"@[0] == 'n');
    assert(first_key(es, "guid"@) == 0);
    assert(es[1].0@ != "guid"@ && es[2].0@ != "guid"@ && es[3].0@ != "guid"@);
    let t1 = es.drop_first();
    let t2 = t1.drop_first();
    let t3 = t2.drop_first();
    assert(t1[0] == es[1] && t1[1] == es[2] && t1[2] == es[3]);
    assert(t2[0] == es[2] && t2[1] == es[3]);
    assert(t3[0] == es[3]);
    assert(first_key(t1, "hidden"@) == 0);
    assert(first_key(es, "hidden"@) == 1);
    assert(first_key(t2, "name"@) == 0);
    assert(first_key(t1, "name"@) == 1);
    assert(first_key(es, "name"@) == 2);
    assert(first_key(t3, "commandline"@) == 0);
    assert(first_key(t2, "commandline"@) == 1);
    assert(first_key(t1, "commandline"@) == 2);
    assert(first_key(es, "commandline"@) == 3);
}

/// Upserting twice with one profile id leaves exactly one entry with that
/// id, never two: starting from a document holding at most one such
/// entry, two registrar calls end with exactly one.
pub proof fn lemma_profile_upsert_idempotent(
    doc: Json,
    d1: Json,
    d2: Json,
    braced: Seq<char>,
    n1: Seq<char>,
    n2: Seq<char>,
    e1: bool,
    e2: bool,
)
    requires
        count_guid(profiles_list(doc), braced) <= 1,
        profile_upserted(doc, d1, braced, n1, e1),
        profile_upserted(d1, d2, braced, n2, e2),
    ensures
        count_guid(profiles_list(d2), braced) == 1,
{
    let l0 = profiles_list(doc);
    let l1 = profiles_list(d1);
    lemma_count_guid_exists(l0, braced);
    if e1 {
        assert(d1 == doc);
        assert(count_guid(l1, braced) == 1);
    } else {
        assert(count_guid(l0, braced) == 0);
        assert(l1 =~= seq![l1[0]] + l0);
        lemma_count_guid_prepend(l1[0], l0, braced);
        assert(count_guid(l1, braced) == 1);
    }
    lemma_count_guid_exists(l1, braced);
    assert(e2) by {
        if e1 {
        } else {
            assert(entry_guid_is(l1[0], braced));
        }
    }
    assert(d2 == d1);
}

} // verus!
