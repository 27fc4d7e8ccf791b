//! The image reference grammar: `[registry/]repository[:tag]`.
//!
//! The registry is everything before the last slash; within the remainder,
//! the tag is everything after the last colon. Each present part must be
//! non-empty, otherwise the reference is malformed. The parser injects no
//! defaults: a missing tag stays missing, and callers apply `latest`
//! explicitly where the flows call for it.

use vstd::prelude::*;
use crate::errors::DragonError;
use crate::strutil::{
    contains_char, find_last, last_index_of, lemma_last_index_of, lemma_last_index_of_unique,
    str_concat, str_concat3, substring,
};

verus! {

/// The view of an optional owned string.
pub open spec fn opt_view(o: Option<String>) -> Option<Seq<char>> {
    match o {
        Some(s) => Some(s@),
        None => None,
    }
}

/// Registry part and remainder: split at the last slash.
pub open spec fn split_registry(s: Seq<char>) -> (Option<Seq<char>>, Seq<char>) {
    let i = last_index_of(s, '/');
    if i >= 0 {
        (Some(s.subrange(0, i)), s.subrange(i + 1, s.len() as int))
    } else {
        (None, s)
    }
}

/// Repository and tag: split the remainder at its last colon.
pub open spec fn split_tag(rest: Seq<char>) -> (Seq<char>, Option<Seq<char>>) {
    let j = last_index_of(rest, ':');
    if j >= 0 {
        (rest.subrange(0, j), Some(rest.subrange(j + 1, rest.len() as int)))
    } else {
        (rest, None)
    }
}

/// Every part that is present is non-empty.
pub open spec fn ref_parts_ok(
    reg: Option<Seq<char>>,
    repo: Seq<char>,
    tag: Option<Seq<char>>,
) -> bool {
    &&& repo.len() > 0
    &&& (reg matches Some(r) ==> r.len() > 0)
    &&& (tag matches Some(t) ==> t.len() > 0)
}

/// The parts of a well-formed reference, or `None` for a malformed one.
pub open spec fn parse_ref(s: Seq<char>) -> Option<(Option<Seq<char>>, Seq<char>, Option<Seq<char>>)> {
    let (reg, rest) = split_registry(s);
    let (repo, tag) = split_tag(rest);
    if ref_parts_ok(reg, repo, tag) {
        Some((reg, repo, tag))
    } else {
        None
    }
}

/// The parts put back together: `registry + "/" + repository + ":" + tag`,
/// omitting the absent parts.
pub open spec fn reassemble_spec(
    reg: Option<Seq<char>>,
    repo: Seq<char>,
    tag: Option<Seq<char>>,
) -> Seq<char> {
    (match reg {
        Some(r) => r + seq!['/'],
        None => Seq::<char>::empty(),
    }) + repo + (match tag {
        Some(t) => seq![':'] + t,
        None => Seq::<char>::empty(),
    })
}

/// Splits an image reference into registry, repository and tag.
pub fn extract_generic_image_details(image_url: &str) -> (r: Result<
    (Option<String>, String, Option<String>),
    DragonError,
>)
    ensures
        match r {
            Ok(p) => parse_ref(image_url@) == Some((opt_view(p.0), p.1@, opt_view(p.2))),
            Err(e) => e == DragonError::MalformedReference && parse_ref(image_url@) is None,
        },
{
    let len = image_url.unicode_len();
    let (registry, rest): (Option<String>, String) = match find_last(image_url, '/') {
        Some(i) => (
            Some(substring(image_url, 0, i)),
            substring(image_url, i + 1, len),
        ),
        None => (None, substring(image_url, 0, len)),
    };
    proof {
        assert(image_url@.subrange(0, image_url@.len() as int) =~= image_url@);
    }
    let rest_len = rest.as_str().unicode_len();
    let (repository, tag): (String, Option<String>) = match find_last(rest.as_str(), ':') {
        Some(j) => (
            substring(rest.as_str(), 0, j),
            Some(substring(rest.as_str(), j + 1, rest_len)),
        ),
        None => (substring(rest.as_str(), 0, rest_len), None),
    };
    proof {
        assert(rest@.subrange(0, rest@.len() as int) =~= rest@);
    }
    if repository.as_str().unicode_len() == 0 {
        return Err(DragonError::MalformedReference);
    }
    if let Some(rg) = &registry {
        if rg.as_str().unicode_len() == 0 {
            return Err(DragonError::MalformedReference);
        }
    }
    if let Some(t) = &tag {
        if t.as_str().unicode_len() == 0 {
            return Err(DragonError::MalformedReference);
        }
    }
    Ok((registry, repository, tag))
}

/// The parts put back together as an owned string.
pub fn reassemble_ref(reg: &Option<String>, repo: &str, tag: &Option<String>) -> (r: String)
    ensures
        r@ == reassemble_spec(
            match reg {
                Some(s) => Some(s@),
                None => None,
            },
            repo@,
            match tag {
                Some(s) => Some(s@),
                None => None,
            },
        ),
{
    proof {
        reveal_strlit("/");
        reveal_strlit(":");
        assert("/"@ =~= seq!['/']);
        assert(":"@ =~= seq![':']);
    }
    let mut s = match reg {
        Some(rg) => str_concat(rg.as_str(), "/"),
        None => String::new(),
    };
    s.append(repo);
    match tag {
        Some(t) => {
            s.append(":");
            s.append(t.as_str());
        },
        None => {},
    }
    proof {
        assert(s@ =~= reassemble_spec(
            match reg {
                Some(g) => Some(g@),
                None => None,
            },
            repo@,
            match tag {
                Some(g) => Some(g@),
                None => None,
            },
        ));
    }
    s
}

/// An image reference carrying `latest_tag_str` as its tag, over the given
/// registry and repository parts.
pub fn update_image_url(
    registry_name_option: Option<String>,
    repository_name_str: &String,
    latest_tag_str: &str,
) -> (r: Result<String, DragonError>)
    ensures
        r matches Ok(u) && u@ == reassemble_spec(
            opt_view(registry_name_option),
            repository_name_str@,
            Some(latest_tag_str@),
        ),
{
    proof {
        reveal_strlit("/");
        reveal_strlit(":");
        assert("/"@ =~= seq!['/']);
        assert(":"@ =~= seq![':']);
    }
    match registry_name_option {
        None => {
            let u = str_concat3(repository_name_str.as_str(), ":", latest_tag_str);
            proof {
                assert(u@ =~= reassemble_spec(None, repository_name_str@, Some(latest_tag_str@)));
            }
            Ok(u)
        },
        Some(rg) => {
            let head = str_concat3(rg.as_str(), "/", repository_name_str.as_str());
            let u = str_concat3(head.as_str(), ":", latest_tag_str);
            proof {
                assert(u@ =~= reassemble_spec(
                    Some(rg@),
                    repository_name_str@,
                    Some(latest_tag_str@),
                ));
            }
            Ok(u)
        },
    }
}

/// Appending an explicit tag to a reference that has none changes only
/// the tag part: registry and repository parse as before.
pub proof fn lemma_parse_tag_appended(s: Seq<char>, reg: Option<Seq<char>>, repo: Seq<char>, t: Seq<char>)
    requires
        parse_ref(s) == Some((reg, repo, None::<Seq<char>>)),
        t.len() > 0,
        !contains_char(t, '/'),
        !contains_char(t, ':'),
    ensures
        parse_ref(s + seq![':'] + t) == Some((reg, repo, Some(t))),
{
    let i = last_index_of(s, '/');
    let rest = split_registry(s).1;
    lemma_last_index_of(s, '/');
    lemma_last_index_of(rest, ':');
    // With no tag, the remainder after the registry is the repository, and
    // it holds no colon and no slash.
    assert(rest == repo);
    assert(forall|k: int| 0 <= k < rest.len() ==> rest[k] != ':');
    assert(forall|k: int| 0 <= k < rest.len() ==> rest[k] != '/') by {
        if i >= 0 {
            assert(forall|k: int| 0 <= k < rest.len() ==> rest[k] == s[i + 1 + k] && rest[k] != '/');
        }
    }
    let r = s + seq![':'] + t;
    let rrest = rest + seq![':'] + t;
    match reg {
        Some(rg) => {
            assert(s[i] == '/');
            assert(r[i] == '/');
            assert(forall|k: int| i < k < s.len() ==> r[k] == s[k] && r[k] != '/');
            assert(r[s.len() as int] == ':');
            assert(forall|k: int| s.len() < k < r.len() ==> r[k] == t[k - s.len() - 1] && r[k] != '/');
            lemma_last_index_of_unique(r, '/', i);
            assert(r.subrange(0, i) =~= s.subrange(0, i));
            assert(r.subrange(i + 1, r.len() as int) =~= rrest);
        },
        None => {
            assert(forall|k: int| 0 <= k < s.len() ==> s[k] == rest[k]);
            assert(forall|k: int| 0 <= k < r.len() ==> r[k] != '/') by {
                assert(forall|k: int| 0 <= k < s.len() ==> r[k] == rest[k] && r[k] != '/');
                assert(r[s.len() as int] == ':');
                assert(forall|k: int| s.len() < k < r.len() ==> r[k] == t[k - s.len() - 1] && r[k] != '/');
            }
            lemma_last_index_of(r, '/');
            assert(last_index_of(r, '/') == -1) by {
                if last_index_of(r, '/') >= 0 {
                    assert(r[last_index_of(r, '/')] == '/');
                }
            }
            assert(r =~= rrest);
        },
    }
    assert(split_registry(r).1 == rrest);
    assert(rrest[rest.len() as int] == ':');
    assert(forall|k: int| rest.len() < k < rrest.len() ==> rrest[k] == t[k - rest.len() - 1] && rrest[k] != ':');
    assert(forall|k: int| 0 <= k < rest.len() ==> rrest[k] == rest[k] && rrest[k] != ':');
    lemma_last_index_of_unique(rrest, ':', rest.len() as int);
    assert(rrest.subrange(0, rest.len() as int) =~= rest);
    assert(rrest.subrange(rest.len() as int + 1, rrest.len() as int) =~= t);
}

/// Parsing then reassembling is idempotent: re-parsing the reassembled
/// reference gives back the same parts.
pub proof fn lemma_parse_reassemble_idempotent(s: Seq<char>, reg: Option<Seq<char>>, repo: Seq<char>, tag: Option<Seq<char>>)
    requires
        parse_ref(s) == Some((reg, repo, tag)),
    ensures
        parse_ref(reassemble_spec(reg, repo, tag)) == Some((reg, repo, tag)),
{
    let i = last_index_of(s, '/');
    let rest = split_registry(s).1;
    lemma_last_index_of(s, '/');
    assert(forall|k: int| 0 <= k < rest.len() ==> rest[k] != '/') by {
        if i >= 0 {
            assert(forall|k: int| 0 <= k < rest.len() ==> rest[k] == s[i + 1 + k] && rest[k] != '/');
        }
    }
    let j = last_index_of(rest, ':');
    lemma_last_index_of(rest, ':');
    assert(forall|k: int| 0 <= k < repo.len() ==> repo[k] == rest[k] && repo[k] != '/');
    if j >= 0 {
        assert(forall|k: int| 0 <= k < tag->0.len() ==> tag->0[k] == rest[j + 1 + k]);
        assert(forall|k: int| 0 <= k < tag->0.len() ==> tag->0[k] != '/' && tag->0[k] != ':');
    }

    let r = reassemble_spec(reg, repo, tag);
    // The remainder after the registry part of the reassembled reference.
    let rrest = repo + (match tag {
        Some(t) => seq![':'] + t,
        None => Seq::<char>::empty(),
    });
    assert(forall|k: int| 0 <= k < rrest.len() ==> rrest[k] != '/') by {
        assert(forall|k: int| 0 <= k < repo.len() ==> rrest[k] == repo[k]);
        if tag is Some {
            assert(rrest[repo.len() as int] == ':');
            assert(forall|k: int| repo.len() < k < rrest.len() ==> rrest[k] == tag->0[k - repo.len() - 1]);
        }
    }
    match reg {
        Some(rg) => {
            assert(r =~= rg + seq!['/'] + rrest);
            assert(r[rg.len() as int] == '/');
            assert(forall|k: int| rg.len() < k < r.len() ==> r[k] == rrest[k - rg.len() - 1]);
            lemma_last_index_of_unique(r, '/', rg.len() as int);
            assert(split_registry(r).0 == Some(r.subrange(0, rg.len() as int)));
            assert(r.subrange(0, rg.len() as int) =~= rg);
            assert(r.subrange(rg.len() as int + 1, r.len() as int) =~= rrest);
        },
        None => {
            assert(r =~= rrest);
            lemma_last_index_of(r, '/');
            assert(last_index_of(r, '/') == -1) by {
                if last_index_of(r, '/') >= 0 {
                    assert(r[last_index_of(r, '/')] == '/');
                }
            }
        },
    }
    assert(split_registry(r).1 == rrest);
    match tag {
        Some(t) => {
            assert(rrest[repo.len() as int] == ':');
            assert(forall|k: int| repo.len() < k < rrest.len() ==> rrest[k] == t[k - repo.len() - 1] && rrest[k] != ':');
            lemma_last_index_of_unique(rrest, ':', repo.len() as int);
            assert(rrest.subrange(0, repo.len() as int) =~= repo);
            assert(rrest.subrange(repo.len() as int + 1, rrest.len() as int) =~= t);
        },
        None => {
            // With no tag, the remainder is the repository, which holds no colon.
            assert(rrest =~= repo);
            assert(forall|k: int| 0 <= k < repo.len() ==> repo[k] == rest[k]);
            lemma_last_index_of(rrest, ':');
            assert(last_index_of(rrest, ':') == -1) by {
                if last_index_of(rrest, ':') >= 0 {
                    assert(rrest[last_index_of(rrest, ':')] == ':');
                }
            }
        },
    }
}

} // verus!
