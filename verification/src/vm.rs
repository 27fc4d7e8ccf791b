//! The VM side of provisioning: instance identities, reading the runtime's
//! instance list, and the ordered step plan that replaces or creates an
//! instance.
//!
//! The runtime lists instances as UTF-16 text read back as 8-bit
//! characters: entries are separated by `"\r\0\n\0"` and padded with NUL
//! characters, which are stripped before names are compared.

use vstd::prelude::*;
use crate::errors::DragonError;
use crate::store::{join_path, join_path_spec};
use crate::strutil::{str_concat3, str_eq, substring};

verus! {

/// The identity a VM instance is addressed by: `name-tag`.
pub open spec fn vm_identity(name: Seq<char>, tag: Seq<char>) -> Seq<char> {
    name + seq!['-'] + tag
}

/// Composes the VM instance identity from an environment name and a tag.
pub fn get_wsl_wm_name(wsl_name: &str, tag: &str) -> (r: Result<String, DragonError>)
    ensures
        r matches Ok(n) && n@ == vm_identity(wsl_name@, tag@),
{
    proof {
        reveal_strlit("-");
        assert("-"@ =~= seq!['-']);
    }
    let n = str_concat3(wsl_name, "-", tag);
    proof {
        assert(n@ =~= vm_identity(wsl_name@, tag@));
    }
    Ok(n)
}

/// `s` with every NUL character removed.
pub open spec fn strip_nul(s: Seq<char>) -> Seq<char>
    decreases s.len(),
{
    if s.len() == 0 {
        Seq::<char>::empty()
    } else if s.last() == '\0' {
        strip_nul(s.drop_last())
    } else {
        strip_nul(s.drop_last()).push(s.last())
    }
}

/// Index of the first occurrence of `sep` in `s`, or `-1` if none.
pub open spec fn find_sep(s: Seq<char>, sep: Seq<char>) -> int
    decreases s.len(),
{
    if sep.len() == 0 || s.len() < sep.len() {
        -1
    } else if s.subrange(0, sep.len() as int) == sep {
        0
    } else {
        let r = find_sep(s.subrange(1, s.len() as int), sep);
        if r == -1 {
            -1
        } else {
            r + 1
        }
    }
}

/// `find_sep` names the first occurrence: a match where it points, none
/// before it, and none anywhere when it is `-1`.
pub proof fn lemma_find_sep_props(s: Seq<char>, sep: Seq<char>)
    requires
        sep.len() >= 1,
    ensures
        find_sep(s, sep) >= -1,
        find_sep(s, sep) >= 0 ==> {
            &&& find_sep(s, sep) + sep.len() <= s.len()
            &&& s.subrange(find_sep(s, sep), find_sep(s, sep) + sep.len()) == sep
            &&& forall|k: int|
                0 <= k < find_sep(s, sep) ==> #[trigger] s.subrange(k, k + sep.len()) != sep
        },
        find_sep(s, sep) == -1 ==> forall|k: int|
            0 <= k <= s.len() - sep.len() ==> #[trigger] s.subrange(k, k + sep.len()) != sep,
    decreases s.len(),
{
    if s.len() < sep.len() {
    } else if s.subrange(0, sep.len() as int) == sep {
    } else {
        let t = s.subrange(1, s.len() as int);
        lemma_find_sep_props(t, sep);
        assert(forall|k: int|
            0 <= k <= t.len() - sep.len() ==> #[trigger] t.subrange(k, k + sep.len())
                =~= s.subrange(k + 1, k + 1 + sep.len()));
        let r = find_sep(t, sep);
        if r == -1 {
            assert forall|k: int| 0 <= k <= s.len() - sep.len() implies #[trigger] s.subrange(
                k,
                k + sep.len(),
            ) != sep by {
                if k > 0 {
                    assert(t.subrange(k - 1, k - 1 + sep.len()) != sep);
                }
            }
        } else {
            assert(s.subrange(r + 1, r + 1 + sep.len()) == t.subrange(r, r + sep.len()));
            assert forall|k: int| 0 <= k < r + 1 implies #[trigger] s.subrange(k, k + sep.len())
                != sep by {
                if k > 0 {
                    assert(t.subrange(k - 1, k - 1 + sep.len()) != sep);
                }
            }
        }
    }
}

/// `s` cut at every occurrence of `sep`, occurrences removed.
pub open spec fn split_sep(s: Seq<char>, sep: Seq<char>) -> Seq<Seq<char>>
    decreases s.len(),
    via split_sep_decreases
{
    if sep.len() == 0 {
        seq![s]
    } else {
        let i = find_sep(s, sep);
        if i == -1 {
            seq![s]
        } else {
            seq![s.subrange(0, i)] + split_sep(s.subrange(i + sep.len(), s.len() as int), sep)
        }
    }
}

#[via_fn]
proof fn split_sep_decreases(s: Seq<char>, sep: Seq<char>) {
    if sep.len() >= 1 {
        lemma_find_sep_props(s, sep);
    }
}

/// Does `sep` occur in `s` at position `i`?
fn sep_at(s: &str, i: usize, sep: &str) -> (r: bool)
    requires
        i + sep@.len() <= s@.len(),
    ensures
        r == (s@.subrange(i as int, i + sep@.len()) == sep@),
{
    let slen = s.unicode_len();
    let seplen = sep.unicode_len();
    let mut k: usize = 0;
    while k < seplen
        invariant
            slen == s@.len(),
            seplen == sep@.len(),
            i + seplen <= slen,
            k <= seplen,
            forall|j: int| 0 <= j < k ==> s@[i + j] == sep@[j],
        decreases seplen - k,
    {
        if s.get_char(i + k) != sep.get_char(k) {
            assert(s@.subrange(i as int, i + sep@.len())[k as int] != sep@[k as int]);
            return false;
        }
        k += 1;
    }
    proof {
        assert(s@.subrange(i as int, i + sep@.len()) =~= sep@);
    }
    true
}

/// Position of the first occurrence of `sep` in `s`, if any.
pub(crate) fn find_sep_exec(s: &str, sep: &str) -> (r: Option<usize>)
    requires
        sep@.len() >= 1,
    ensures
        match r {
            Some(i) => find_sep(s@, sep@) == i,
            None => find_sep(s@, sep@) == -1,
        },
{
    let len = s.unicode_len();
    let seplen = sep.unicode_len();
    proof {
        lemma_find_sep_props(s@, sep@);
    }
    if seplen > len {
        return None;
    }
    let mut i: usize = 0;
    while i <= len - seplen
        invariant
            len == s@.len(),
            seplen == sep@.len(),
            1 <= seplen <= len,
            i <= len - seplen + 1,
            forall|k: int| 0 <= k < i ==> #[trigger] s@.subrange(k, k + sep@.len()) != sep@,
        decreases len - i,
    {
        if sep_at(s, i, sep) {
            proof {
                lemma_find_sep_props(s@, sep@);
                let fs = find_sep(s@, sep@);
                if fs == -1 {
                    assert(s@.subrange(i as int, i + sep@.len()) != sep@);
                } else if fs < i {
                    assert(s@.subrange(fs, fs + sep@.len()) == sep@);
                } else if fs > i {
                    assert(s@.subrange(i as int, i + sep@.len()) != sep@);
                }
            }
            return Some(i);
        }
        i += 1;
    }
    proof {
        lemma_find_sep_props(s@, sep@);
        let fs = find_sep(s@, sep@);
        if fs >= 0 {
            assert(s@.subrange(fs, fs + sep@.len()) != sep@);
        }
    }
    None
}

/// `s` stripped of NUL characters, as an owned string.
pub fn strip_nul_exec(s: &str) -> (r: String)
    ensures
        r@ == strip_nul(s@),
{
    let len = s.unicode_len();
    let mut acc = String::new();
    let mut i: usize = 0;
    while i < len
        invariant
            len == s@.len(),
            i <= len,
            acc@ == strip_nul(s@.subrange(0, i as int)),
        decreases len - i,
    {
        let c = s.get_char(i);
        if c != '\0' {
            acc.push(c);
        }
        proof {
            assert(s@.subrange(0, i + 1).drop_last() =~= s@.subrange(0, i as int));
            assert(s@.subrange(0, i + 1).last() == s@[i as int]);
        }
        i += 1;
    }
    proof {
        assert(s@.subrange(0, len as int) =~= s@);
    }
    acc
}

/// `s` split at every occurrence of `sep`.
pub fn split_on_sep(s: &str, sep: &str) -> (r: Vec<String>)
    requires
        sep@.len() >= 1,
    ensures
        r.deep_view() == split_sep(s@, sep@),
{
    let seplen = sep.unicode_len();
    let mut pieces: Vec<String> = Vec::new();
    let mut rest: String = s.to_owned();
    loop
        invariant
            sep@.len() == seplen >= 1,
            pieces.deep_view() + split_sep(rest@, sep@) == split_sep(s@, sep@),
        decreases rest@.len(),
    {
        let restlen = rest.as_str().unicode_len();
        match find_sep_exec(rest.as_str(), sep) {
            None => {
                let ghost old_pieces = pieces.deep_view();
                pieces.push(rest);
                proof {
                    assert(pieces.deep_view() =~= old_pieces.push(split_sep(s@, sep@).last()));
                    assert(pieces.deep_view() =~= split_sep(s@, sep@));
                }
                return pieces;
            },
            Some(i) => {
                proof {
                    lemma_find_sep_props(rest@, sep@);
                }
                let piece = substring(rest.as_str(), 0, i);
                let ghost old_pieces = pieces.deep_view();
                let ghost old_rest = rest@;
                pieces.push(piece);
                rest = substring(rest.as_str(), i + seplen, restlen);
                proof {
                    assert(pieces.deep_view() =~= old_pieces.push(old_rest.subrange(0, i as int)));
                    assert(pieces.deep_view() + split_sep(rest@, sep@) =~= split_sep(s@, sep@));
                }
            },
        }
    }
}

/// ASCII whitespace as the external tools' output carries it.
pub open spec fn is_space(c: char) -> bool {
    c == ' ' || c == '\t' || c == '\r' || c == '\n'
}

/// `s` without leading whitespace.
pub open spec fn trim_start_spec(s: Seq<char>) -> Seq<char>
    decreases s.len(),
{
    if s.len() > 0 && is_space(s[0]) {
        trim_start_spec(s.drop_first())
    } else {
        s
    }
}

/// `s` without trailing whitespace.
pub open spec fn trim_end_spec(s: Seq<char>) -> Seq<char>
    decreases s.len(),
{
    if s.len() > 0 && is_space(s.last()) {
        trim_end_spec(s.drop_last())
    } else {
        s
    }
}

/// `s` without leading or trailing whitespace.
pub open spec fn trim_spec(s: Seq<char>) -> Seq<char> {
    trim_end_spec(trim_start_spec(s))
}

proof fn lemma_trim_start(s: Seq<char>, i: int)
    requires
        0 <= i <= s.len(),
        forall|k: int| 0 <= k < i ==> is_space(s[k]),
        i < s.len() ==> !is_space(s[i]),
    ensures
        trim_start_spec(s) == s.subrange(i, s.len() as int),
    decreases i,
{
    if i == 0 {
        assert(s.subrange(0, s.len() as int) =~= s);
    } else {
        let t = s.drop_first();
        assert(forall|k: int| 0 <= k < t.len() ==> t[k] == s[k + 1]);
        lemma_trim_start(t, i - 1);
        assert(t.subrange(i - 1, t.len() as int) =~= s.subrange(i, s.len() as int));
    }
}

proof fn lemma_trim_end(s: Seq<char>, j: int)
    requires
        0 <= j <= s.len(),
        forall|k: int| j <= k < s.len() ==> is_space(s[k]),
        j > 0 ==> !is_space(s[j - 1]),
    ensures
        trim_end_spec(s) == s.subrange(0, j),
    decreases s.len() - j,
{
    if j == s.len() {
        assert(s.subrange(0, s.len() as int) =~= s);
    } else {
        let t = s.drop_last();
        lemma_trim_end(t, j);
        assert(t.subrange(0, j) =~= s.subrange(0, j));
    }
}

/// Does this character count as surrounding whitespace?
fn is_space_exec(c: char) -> (r: bool)
    ensures
        r == is_space(c),
{
    c == ' ' || c == '\t' || c == '\r' || c == '\n'
}

/// An instance or container id as an external tool printed it: trimmed of
/// surrounding whitespace, then stripped of NUL padding.
pub fn clean_container_id(raw: &str) -> (r: String)
    ensures
        r@ == strip_nul(trim_spec(raw@)),
{
    let len = raw.unicode_len();
    let mut i: usize = 0;
    while i < len && is_space_exec(raw.get_char(i))
        invariant
            len == raw@.len(),
            i <= len,
            forall|k: int| 0 <= k < i ==> is_space(raw@[k]),
        decreases len - i,
    {
        i += 1;
    }
    let mut j: usize = len;
    while j > i && is_space_exec(raw.get_char(j - 1))
        invariant
            len == raw@.len(),
            i <= j <= len,
            forall|k: int| j <= k < len ==> is_space(raw@[k]),
        decreases j,
    {
        j -= 1;
    }
    let trimmed = substring(raw, i, j);
    proof {
        lemma_trim_start(raw@, i as int);
        let ts = raw@.subrange(i as int, len as int);
        lemma_trim_end(ts, j - i);
        assert(ts.subrange(0, j - i) =~= raw@.subrange(i as int, j as int));
        assert(trimmed@ == trim_spec(raw@));
    }
    strip_nul_exec(trimmed.as_str())
}

/// The entry separator in the runtime's instance list output.
pub open spec fn list_sep() -> Seq<char> {
    seq!['\r', '\0', '\n', '\0']
}

/// Some entry of the instance list output, stripped of NUL padding, is
/// exactly `name`.
pub open spec fn vm_exists_spec(out: Seq<char>, name: Seq<char>) -> bool {
    exists|i: int|
        0 <= i < split_sep(out, list_sep()).len() && strip_nul(split_sep(out, list_sep())[i])
            == name
}

/// Does the instance list output name this VM?
pub fn wsl_vm_exists(list_output: &str, wsl_name: &str) -> (r: bool)
    ensures
        r == vm_exists_spec(list_output@, wsl_name@),
{
    let sep = "\r\u{0}\n\u{0}";
    proof {
        reveal_strlit("\r\u{0}\n\u{0}");
        assert(sep@ =~= list_sep());
    }
    let pieces = split_on_sep(list_output, sep);
    let n = pieces.len();
    let mut i: usize = 0;
    while i < n
        invariant
            n == pieces.deep_view().len(),
            pieces.deep_view() == split_sep(list_output@, list_sep()),
            i <= n,
            forall|j: int| 0 <= j < i ==> strip_nul(pieces.deep_view()[j]) != wsl_name@,
        decreases n - i,
    {
        let cleaned = strip_nul_exec(pieces[i].as_str());
        proof {
            assert(pieces[i as int]@ == pieces.deep_view()[i as int]);
        }
        if str_eq(cleaned.as_str(), wsl_name) {
            return true;
        }
        i += 1;
    }
    false
}

/// One step of a provisioning plan, in the order the runtime must see it.
#[derive(Debug, Clone)]
pub enum VmStep {
    /// Tear the named instance down.
    Unregister { vm_name: String },
    /// Ensure the install directory exists, recursively.
    CreateDir { path: String },
    /// Import the archive as the named instance at the install path.
    Import { vm_name: String, install_path: String, tar_path: String },
}

/// The ordered steps that converge the runtime on `vm_name`: an instance
/// already listed is unregistered first, and the import always comes last,
/// into the install directory derived from the base path. Replacement is
/// destructive: there is no staging between the unregister and the import.
pub fn plan_provision(
    wsl_vm_name_str: &str,
    list_output: &str,
    base_install_path: &str,
    tar_path: &str,
) -> (r: Vec<VmStep>)
    ensures
        ({
            let ip = join_path_spec(base_install_path@, wsl_vm_name_str@);
            let exists_already = vm_exists_spec(list_output@, wsl_vm_name_str@);
            &&& r@.len() == if exists_already {
                3int
            } else {
                2int
            }
            &&& exists_already ==> (r@[0] matches VmStep::Unregister { vm_name } && vm_name@
                == wsl_vm_name_str@)
            &&& r@[r@.len() - 2] matches VmStep::CreateDir { path } && path@ == ip
            &&& r@[r@.len() - 1] matches VmStep::Import { vm_name, install_path, tar_path: t }
                && vm_name@ == wsl_vm_name_str@ && install_path@ == ip && t@ == tar_path@
            &&& (exists_already <==> exists|i: int|
                0 <= i < r@.len() && r@[i] is Unregister)
            &&& forall|i: int, j: int|
                0 <= i < r@.len() && 0 <= j < r@.len() && r@[i] is Unregister && r@[j] is Import
                    ==> i < j
        }),
{
    let install_path = join_path(base_install_path, wsl_vm_name_str);
    let mut steps: Vec<VmStep> = Vec::new();
    if wsl_vm_exists(list_output, wsl_vm_name_str) {
        steps.push(VmStep::Unregister { vm_name: String::from_str(wsl_vm_name_str) });
    }
    steps.push(VmStep::CreateDir { path: install_path.clone() });
    steps.push(
        VmStep::Import {
            vm_name: String::from_str(wsl_vm_name_str),
            install_path,
            tar_path: String::from_str(tar_path),
        },
    );
    steps
}

} // verus!
