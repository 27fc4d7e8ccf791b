//! The config document: how the store is written to disk and read back.
//!
//! The document is line-oriented and human-editable: a `wsls:` section of
//! five-line records, the store-wide default install location, and a
//! `private_registries:` section of four-line records. A missing optional
//! value is written `~`. Reading is strict — anything that does not fit
//! this shape is `ConfigCorrupt` — and reading back what was written
//! gives the same store (proved below).

use vstd::prelude::*;
use crate::errors::DragonError;
use crate::refparse::opt_view;
use crate::store::{DockerWslConf, Registry, WslConf};
use crate::strutil::{
    contains_char, lemma_prefix_concat, starts_with_spec, str_concat, str_eq, str_starts_with,
    substring,
};
use crate::vm::{find_sep, lemma_find_sep_props, split_on_sep, split_sep};

verus! {

/// The mathematical content of one environment record.
#[verifier::ext_equal]
pub struct WslModel {
    pub name: Seq<char>,
    pub image: Seq<char>,
    pub latest: Option<Seq<char>>,
    pub profile_id: Seq<char>,
    pub base_install_path: Seq<char>,
}

/// The mathematical content of one registry credential.
#[verifier::ext_equal]
pub struct RegModel {
    pub name: Seq<char>,
    pub username: Seq<char>,
    pub password: Seq<char>,
    pub tenant: Option<Seq<char>>,
}

/// The mathematical content of the whole store.
#[verifier::ext_equal]
pub struct StoreModel {
    pub wsls: Seq<WslModel>,
    pub default_base: Option<Seq<char>>,
    pub regs: Seq<RegModel>,
}

/// The model of one record.
pub open spec fn wsl_view(w: WslConf) -> WslModel {
    WslModel {
        name: w.name@,
        image: w.image@,
        latest: opt_view(w.latest),
        profile_id: w.windows_terminal_profile_id@,
        base_install_path: w.base_install_path@,
    }
}

/// The model of one credential.
pub open spec fn reg_view(r: Registry) -> RegModel {
    RegModel {
        name: r.name@,
        username: r.username@,
        password: r.password@,
        tenant: opt_view(r.tenant),
    }
}

/// The models of a list of records.
pub open spec fn wsl_models(ws: Seq<WslConf>) -> Seq<WslModel> {
    Seq::new(ws.len(), |i: int| wsl_view(ws[i]))
}

/// The models of a list of credentials.
pub open spec fn reg_models(rs: Seq<Registry>) -> Seq<RegModel> {
    Seq::new(rs.len(), |i: int| reg_view(rs[i]))
}

/// The model of the whole store.
pub open spec fn store_view(c: DockerWslConf) -> StoreModel {
    StoreModel {
        wsls: wsl_models(c.wsls@),
        default_base: opt_view(c.default_base_wsl_install_path),
        regs: reg_models(c.private_registries@),
    }
}

/// An optional value on its line: the value itself, or `~` for none.
pub open spec fn opt_field(o: Option<Seq<char>>) -> Seq<char> {
    match o {
        None => "~"@,
        Some(v) => v,
    }
}

/// The optional value a field carries: `~` reads back as none.
pub open spec fn opt_parse(v: Seq<char>) -> Option<Seq<char>> {
    if v == "~"@ {
        None
    } else {
        Some(v)
    }
}

/// A value that can sit on one line of the document.
pub open spec fn text_ok(s: Seq<char>) -> bool {
    !contains_char(s, '\n')
}

/// An optional value that reads back as itself: no line break, and not
/// the literal none marker.
pub open spec fn opt_ok(o: Option<Seq<char>>) -> bool {
    match o {
        None => true,
        Some(v) => text_ok(v) && v != "~"@,
    }
}

/// A record the document can carry faithfully.
pub open spec fn wsl_model_ok(w: WslModel) -> bool {
    &&& text_ok(w.name)
    &&& text_ok(w.image)
    &&& opt_ok(w.latest)
    &&& text_ok(w.profile_id)
    &&& text_ok(w.base_install_path)
}

/// A credential the document can carry faithfully.
pub open spec fn reg_model_ok(r: RegModel) -> bool {
    &&& text_ok(r.name)
    &&& text_ok(r.username)
    &&& text_ok(r.password)
    &&& opt_ok(r.tenant)
}

/// A store the document can carry faithfully.
pub open spec fn store_ok(m: StoreModel) -> bool {
    &&& forall|i: int| 0 <= i < m.wsls.len() ==> wsl_model_ok(#[trigger] m.wsls[i])
    &&& opt_ok(m.default_base)
    &&& forall|i: int| 0 <= i < m.regs.len() ==> reg_model_ok(#[trigger] m.regs[i])
}

/// The five lines of one record.
pub open spec fn render_wsl(w: WslModel) -> Seq<Seq<char>> {
    seq![
        "- name: "@ + w.name,
        "  image: "@ + w.image,
        "  latest: "@ + opt_field(w.latest),
        "  windows_terminal_profile_id: "@ + w.profile_id,
        "  base_install_path: "@ + w.base_install_path,
    ]
}

/// The lines of all records, in order.
pub open spec fn render_wsls(ws: Seq<WslModel>) -> Seq<Seq<char>>
    decreases ws.len(),
{
    if ws.len() == 0 {
        Seq::<Seq<char>>::empty()
    } else {
        render_wsl(ws[0]) + render_wsls(ws.drop_first())
    }
}

/// The four lines of one credential.
pub open spec fn render_reg(r: RegModel) -> Seq<Seq<char>> {
    seq![
        "- name: "@ + r.name,
        "  username: "@ + r.username,
        "  password: "@ + r.password,
        "  tenant: "@ + opt_field(r.tenant),
    ]
}

/// The lines of all credentials, in order.
pub open spec fn render_regs(rs: Seq<RegModel>) -> Seq<Seq<char>>
    decreases rs.len(),
{
    if rs.len() == 0 {
        Seq::<Seq<char>>::empty()
    } else {
        render_reg(rs[0]) + render_regs(rs.drop_first())
    }
}

/// Every line of the document, in order.
pub open spec fn render_store(m: StoreModel) -> Seq<Seq<char>> {
    seq!["wsls:"@] + render_wsls(m.wsls) + seq![
        "default_base_wsl_install_path: "@ + opt_field(m.default_base),
    ] + seq!["private_registries:"@] + render_regs(m.regs)
}

/// The value after a fixed prefix, if the line carries that prefix.
pub open spec fn take_field(line: Seq<char>, prefix: Seq<char>) -> Option<Seq<char>> {
    if starts_with_spec(line, prefix) {
        Some(line.subrange(prefix.len() as int, line.len() as int))
    } else {
        None
    }
}

/// Reads records off the front of the lines until a line that does not
/// open a record; what follows is handed back.
pub open spec fn parse_wsls(lines: Seq<Seq<char>>) -> Option<(Seq<WslModel>, Seq<Seq<char>>)>
    decreases lines.len(),
{
    if lines.len() == 0 || !starts_with_spec(lines[0], "- name: "@) {
        Some((Seq::<WslModel>::empty(), lines))
    } else if lines.len() < 5 {
        None
    } else {
        match (
            take_field(lines[0], "- name: "@),
            take_field(lines[1], "  image: "@),
            take_field(lines[2], "  latest: "@),
            take_field(lines[3], "  windows_terminal_profile_id: "@),
            take_field(lines[4], "  base_install_path: "@),
        ) {
            (Some(name), Some(image), Some(latest), Some(profile), Some(base)) => {
                let w = WslModel {
                    name,
                    image,
                    latest: opt_parse(latest),
                    profile_id: profile,
                    base_install_path: base,
                };
                match parse_wsls(lines.subrange(5, lines.len() as int)) {
                    None => None,
                    Some((ws, rest)) => Some((seq![w] + ws, rest)),
                }
            },
            _ => None,
        }
    }
}

/// Reads credentials off the front of the lines, as `parse_wsls` does
/// records.
pub open spec fn parse_regs(lines: Seq<Seq<char>>) -> Option<(Seq<RegModel>, Seq<Seq<char>>)>
    decreases lines.len(),
{
    if lines.len() == 0 || !starts_with_spec(lines[0], "- name: "@) {
        Some((Seq::<RegModel>::empty(), lines))
    } else if lines.len() < 4 {
        None
    } else {
        match (
            take_field(lines[0], "- name: "@),
            take_field(lines[1], "  username: "@),
            take_field(lines[2], "  password: "@),
            take_field(lines[3], "  tenant: "@),
        ) {
            (Some(name), Some(username), Some(password), Some(tenant)) => {
                let r = RegModel { name, username, password, tenant: opt_parse(tenant) };
                match parse_regs(lines.subrange(4, lines.len() as int)) {
                    None => None,
                    Some((rs, rest)) => Some((seq![r] + rs, rest)),
                }
            },
            _ => None,
        }
    }
}

/// The store a document holds, or nothing when the document does not fit
/// the shape exactly.
pub open spec fn parse_store(lines: Seq<Seq<char>>) -> Option<StoreModel> {
    if lines.len() == 0 || lines[0] != "wsls:"@ {
        None
    } else {
        match parse_wsls(lines.subrange(1, lines.len() as int)) {
            None => None,
            Some((ws, rest)) => if rest.len() < 2 {
                None
            } else {
                match take_field(rest[0], "default_base_wsl_install_path: "@) {
                    None => None,
                    Some(d) => if rest[1] != "private_registries:"@ {
                        None
                    } else {
                        match parse_regs(rest.subrange(2, rest.len() as int)) {
                            None => None,
                            Some((rs, rest2)) => if rest2.len() == 0 {
                                Some(StoreModel { wsls: ws, default_base: opt_parse(d), regs: rs })
                            } else {
                                None
                            },
                        }
                    },
                }
            },
        }
    }
}

/// Lines joined by single line breaks, with no trailing break.
pub open spec fn join_lines(ls: Seq<Seq<char>>) -> Seq<char>
    decreases ls.len(),
{
    if ls.len() == 0 {
        Seq::<char>::empty()
    } else if ls.len() == 1 {
        ls[0]
    } else {
        ls[0] + seq!['\n'] + join_lines(ls.drop_first())
    }
}

/// Joining one more line appends a break and the line.
pub proof fn lemma_join_push(ls: Seq<Seq<char>>, x: Seq<char>)
    requires
        ls.len() >= 1,
    ensures
        join_lines(ls.push(x)) == join_lines(ls) + seq!['\n'] + x,
    decreases ls.len(),
{
    if ls.len() == 1 {
        assert(ls.push(x)[0] == ls[0]);
        assert(ls.push(x).drop_first() =~= seq![x]);
        assert(join_lines(seq![x]) == x);
    } else {
        lemma_join_push(ls.drop_first(), x);
        assert(ls.push(x).drop_first() =~= ls.drop_first().push(x));
        assert(ls.push(x)[0] == ls[0]);
        assert((ls[0] + seq!['\n'] + (join_lines(ls.drop_first()) + seq!['\n'] + x)) =~= (ls[0]
            + seq!['\n'] + join_lines(ls.drop_first())) + seq!['\n'] + x);
    }
}

/// Splitting at line breaks undoes joining, for lines that carry none.
pub proof fn lemma_split_join(ls: Seq<Seq<char>>)
    requires
        ls.len() >= 1,
        forall|i: int| 0 <= i < ls.len() ==> text_ok(#[trigger] ls[i]),
    ensures
        split_sep(join_lines(ls), seq!['\n']) == ls,
    decreases ls.len(),
{
    let s = join_lines(ls);
    lemma_find_sep_props(s, seq!['\n']);
    if ls.len() == 1 {
        assert(forall|k: int| 0 <= k < s.len() ==> s[k] != '\n');
        assert(find_sep(s, seq!['\n']) == -1) by {
            let fs = find_sep(s, seq!['\n']);
            if fs >= 0 {
                assert(s.subrange(fs, fs + 1) == seq!['\n']);
                assert(s.subrange(fs, fs + 1)[0] == s[fs]);
                assert(s[fs] == '\n');
            }
        }
        assert(seq![s] =~= ls);
    } else {
        lemma_split_join(ls.drop_first());
        let l0 = ls[0];
        let tail = join_lines(ls.drop_first());
        assert(s =~= l0 + seq!['\n'] + tail);
        assert(s[l0.len() as int] == '\n');
        assert(s.subrange(l0.len() as int, l0.len() as int + 1) =~= seq!['\n']);
        assert(forall|k: int| 0 <= k < l0.len() ==> s[k] == l0[k] && s[k] != '\n');
        assert(find_sep(s, seq!['\n']) == l0.len()) by {
            let fs = find_sep(s, seq!['\n']);
            if fs == -1 {
                assert(s.subrange(l0.len() as int, l0.len() as int + 1) != seq!['\n']);
            } else if fs < l0.len() {
                assert(s.subrange(fs, fs + 1) == seq!['\n']);
                assert(s.subrange(fs, fs + 1)[0] == s[fs]);
                assert(s[fs] == '\n');
            } else if fs > l0.len() {
                assert(s.subrange(l0.len() as int, l0.len() as int + 1) != seq!['\n']);
            }
        }
        assert(s.subrange(0, l0.len() as int) =~= l0);
        assert(s.subrange(l0.len() as int + 1, s.len() as int) =~= tail);
        assert(split_sep(s, seq!['\n']) == seq![l0] + split_sep(tail, seq!['\n']));
        assert(seq![l0] + ls.drop_first() =~= ls);
    }
}

/// Rendering one more record appends its five lines.
pub proof fn lemma_render_wsls_push(ws: Seq<WslModel>, w: WslModel)
    ensures
        render_wsls(ws.push(w)) == render_wsls(ws) + render_wsl(w),
    decreases ws.len(),
{
    if ws.len() == 0 {
        assert(ws.push(w)[0] == w);
        assert(ws.push(w).drop_first() =~= Seq::<WslModel>::empty());
        assert(render_wsls(Seq::<WslModel>::empty()) == Seq::<Seq<char>>::empty());
        assert(render_wsls(ws.push(w)) =~= render_wsls(ws) + render_wsl(w));
    } else {
        lemma_render_wsls_push(ws.drop_first(), w);
        assert(ws.push(w)[0] == ws[0]);
        assert(ws.push(w).drop_first() =~= ws.drop_first().push(w));
        assert(render_wsl(ws[0]) + (render_wsls(ws.drop_first()) + render_wsl(w)) =~= (render_wsl(
            ws[0],
        ) + render_wsls(ws.drop_first())) + render_wsl(w));
    }
}

/// Rendering one more credential appends its four lines.
pub proof fn lemma_render_regs_push(rs: Seq<RegModel>, r: RegModel)
    ensures
        render_regs(rs.push(r)) == render_regs(rs) + render_reg(r),
    decreases rs.len(),
{
    if rs.len() == 0 {
        assert(rs.push(r)[0] == r);
        assert(rs.push(r).drop_first() =~= Seq::<RegModel>::empty());
        assert(render_regs(Seq::<RegModel>::empty()) == Seq::<Seq<char>>::empty());
        assert(render_regs(rs.push(r)) =~= render_regs(rs) + render_reg(r));
    } else {
        lemma_render_regs_push(rs.drop_first(), r);
        assert(rs.push(r)[0] == rs[0]);
        assert(rs.push(r).drop_first() =~= rs.drop_first().push(r));
        assert(render_reg(rs[0]) + (render_regs(rs.drop_first()) + render_reg(r)) =~= (render_reg(
            rs[0],
        ) + render_regs(rs.drop_first())) + render_reg(r));
    }
}

/// A line made of a clean prefix and a clean value is clean.
proof fn lemma_line_ok(p: Seq<char>, v: Seq<char>)
    requires
        !contains_char(p, '\n'),
        !contains_char(v, '\n'),
    ensures
        text_ok(p + v),
{
    assert forall|k: int| 0 <= k < (p + v).len() implies (p + v)[k] != '\n' by {
        if k < p.len() {
            assert((p + v)[k] == p[k]);
        } else {
            assert((p + v)[k] == v[k - p.len()]);
        }
    }
}

/// None of the document's fixed prefixes holds a line break.
proof fn lemma_prefixes_ok()
    ensures
        !contains_char("wsls:"@, '\n'),
        !contains_char("- name: "@, '\n'),
        !contains_char("  image: "@, '\n'),
        !contains_char("  latest: "@, '\n'),
        !contains_char("  windows_terminal_profile_id: "@, '\n'),
        !contains_char("  base_install_path: "@, '\n'),
        !contains_char("default_base_wsl_install_path: "@, '\n'),
        !contains_char("private_registries:"@, '\n'),
        !contains_char("  username: "@, '\n'),
        !contains_char("  password: "@, '\n'),
        !contains_char("  tenant: "@, '\n'),
        !contains_char("~"@, '\n'),
{
    reveal_strlit("wsls:");
    reveal_strlit("- name: ");
    reveal_strlit("  image: ");
    reveal_strlit("  latest: ");
    reveal_strlit("  windows_terminal_profile_id: ");
    reveal_strlit("  base_install_path: ");
    reveal_strlit("default_base_wsl_install_path: ");
    reveal_strlit("private_registries:");
    reveal_strlit("  username: ");
    reveal_strlit("  password: ");
    reveal_strlit("  tenant: ");
    reveal_strlit("~");
}

/// Every rendered record line is clean.
proof fn lemma_render_wsls_lines_ok(ws: Seq<WslModel>)
    requires
        forall|i: int| 0 <= i < ws.len() ==> wsl_model_ok(#[trigger] ws[i]),
    ensures
        forall|i: int| 0 <= i < render_wsls(ws).len() ==> text_ok(#[trigger] render_wsls(ws)[i]),
        render_wsls(ws).len() == 5 * ws.len(),
    decreases ws.len(),
{
    lemma_prefixes_ok();
    if ws.len() > 0 {
        assert(forall|i: int| 0 <= i < ws.drop_first().len() ==> wsl_model_ok(
            #[trigger] ws.drop_first()[i],
        ));
        lemma_render_wsls_lines_ok(ws.drop_first());
        lemma_line_ok("- name: "@, ws[0].name);
        lemma_line_ok("  image: "@, ws[0].image);
        lemma_line_ok("  latest: "@, opt_field(ws[0].latest));
        lemma_line_ok("  windows_terminal_profile_id: "@, ws[0].profile_id);
        lemma_line_ok("  base_install_path: "@, ws[0].base_install_path);
    }
}

/// Every rendered credential line is clean.
proof fn lemma_render_regs_lines_ok(rs: Seq<RegModel>)
    requires
        forall|i: int| 0 <= i < rs.len() ==> reg_model_ok(#[trigger] rs[i]),
    ensures
        forall|i: int| 0 <= i < render_regs(rs).len() ==> text_ok(#[trigger] render_regs(rs)[i]),
        render_regs(rs).len() == 4 * rs.len(),
    decreases rs.len(),
{
    lemma_prefixes_ok();
    if rs.len() > 0 {
        assert(forall|i: int| 0 <= i < rs.drop_first().len() ==> reg_model_ok(
            #[trigger] rs.drop_first()[i],
        ));
        lemma_render_regs_lines_ok(rs.drop_first());
        lemma_line_ok("- name: "@, rs[0].name);
        lemma_line_ok("  username: "@, rs[0].username);
        lemma_line_ok("  password: "@, rs[0].password);
        lemma_line_ok("  tenant: "@, opt_field(rs[0].tenant));
    }
}

/// Parsing reads back exactly the records that were rendered, leaving the
/// lines after them untouched.
proof fn lemma_parse_render_wsls(ws: Seq<WslModel>, suffix: Seq<Seq<char>>)
    requires
        forall|i: int| 0 <= i < ws.len() ==> wsl_model_ok(#[trigger] ws[i]),
        suffix.len() == 0 || !starts_with_spec(suffix[0], "- name: "@),
    ensures
        parse_wsls(render_wsls(ws) + suffix) == Some((ws, suffix)),
    decreases ws.len(),
{
    let lines = render_wsls(ws) + suffix;
    if ws.len() == 0 {
        assert(lines =~= suffix);
    } else {
        let w0 = ws[0];
        let tail = render_wsls(ws.drop_first()) + suffix;
        assert(lines =~= render_wsl(w0) + tail);
        assert(lines[0] == "- name: "@ + w0.name);
        assert(lines[1] == "  image: "@ + w0.image);
        assert(lines[2] == "  latest: "@ + opt_field(w0.latest));
        assert(lines[3] == "  windows_terminal_profile_id: "@ + w0.profile_id);
        assert(lines[4] == "  base_install_path: "@ + w0.base_install_path);
        lemma_prefix_concat("- name: "@, w0.name);
        lemma_prefix_concat("  image: "@, w0.image);
        lemma_prefix_concat("  latest: "@, opt_field(w0.latest));
        lemma_prefix_concat("  windows_terminal_profile_id: "@, w0.profile_id);
        lemma_prefix_concat("  base_install_path: "@, w0.base_install_path);
        assert(forall|i: int| 0 <= i < ws.drop_first().len() ==> wsl_model_ok(
            #[trigger] ws.drop_first()[i],
        ));
        lemma_parse_render_wsls(ws.drop_first(), suffix);
        assert(lines.subrange(5, lines.len() as int) =~= tail);
        let parsed = WslModel {
            name: w0.name,
            image: w0.image,
            latest: opt_parse(opt_field(w0.latest)),
            profile_id: w0.profile_id,
            base_install_path: w0.base_install_path,
        };
        assert(opt_parse(opt_field(w0.latest)) == w0.latest);
        assert(parsed =~= w0);
        assert(seq![w0] + ws.drop_first() =~= ws);
    }
}

/// Parsing reads back exactly the credentials that were rendered.
proof fn lemma_parse_render_regs(rs: Seq<RegModel>, suffix: Seq<Seq<char>>)
    requires
        forall|i: int| 0 <= i < rs.len() ==> reg_model_ok(#[trigger] rs[i]),
        suffix.len() == 0 || !starts_with_spec(suffix[0], "- name: "@),
    ensures
        parse_regs(render_regs(rs) + suffix) == Some((rs, suffix)),
    decreases rs.len(),
{
    let lines = render_regs(rs) + suffix;
    if rs.len() == 0 {
        assert(lines =~= suffix);
    } else {
        let r0 = rs[0];
        let tail = render_regs(rs.drop_first()) + suffix;
        assert(lines =~= render_reg(r0) + tail);
        assert(lines[0] == "- name: "@ + r0.name);
        assert(lines[1] == "  username: "@ + r0.username);
        assert(lines[2] == "  password: "@ + r0.password);
        assert(lines[3] == "  tenant: "@ + opt_field(r0.tenant));
        lemma_prefix_concat("- name: "@, r0.name);
        lemma_prefix_concat("  username: "@, r0.username);
        lemma_prefix_concat("  password: "@, r0.password);
        lemma_prefix_concat("  tenant: "@, opt_field(r0.tenant));
        assert(forall|i: int| 0 <= i < rs.drop_first().len() ==> reg_model_ok(
            #[trigger] rs.drop_first()[i],
        ));
        lemma_parse_render_regs(rs.drop_first(), suffix);
        assert(lines.subrange(4, lines.len() as int) =~= tail);
        let parsed = RegModel {
            name: r0.name,
            username: r0.username,
            password: r0.password,
            tenant: opt_parse(opt_field(r0.tenant)),
        };
        assert(opt_parse(opt_field(r0.tenant)) == r0.tenant);
        assert(parsed =~= r0);
        assert(seq![r0] + rs.drop_first() =~= rs);
    }
}

/// A rendered default line never opens a record.
proof fn lemma_default_line_not_record(v: Seq<char>)
    ensures
        !starts_with_spec("default_base_wsl_install_path: "@ + v, "- name: "@),
{
    reveal_strlit("default_base_wsl_install_path: ");
    reveal_strlit("- name: ");
    let line = "default_base_wsl_install_path: "@ + v;
    if starts_with_spec(line, "- name: "@) {
        assert(line.subrange(0, "- name: "@.len() as int)[0] == line[0]);
        assert(line[0] == 'd');
    }
}

/// Parsing the rendered lines gives the store back.
pub proof fn lemma_parse_render_store(m: StoreModel)
    requires
        store_ok(m),
    ensures
        parse_store(render_store(m)) == Some(m),
{
    let lines = render_store(m);
    let dline = "default_base_wsl_install_path: "@ + opt_field(m.default_base);
    let suffix = seq![dline] + seq!["private_registries:"@] + render_regs(m.regs);
    assert(lines =~= seq!["wsls:"@] + (render_wsls(m.wsls) + suffix));
    assert(lines[0] == "wsls:"@);
    assert(lines.len() >= 1);
    assert(lines.subrange(1, lines.len() as int) =~= render_wsls(m.wsls) + suffix);
    assert(suffix[0] == dline);
    lemma_default_line_not_record(opt_field(m.default_base));
    lemma_parse_render_wsls(m.wsls, suffix);
    assert(suffix.len() >= 2);
    lemma_prefix_concat("default_base_wsl_install_path: "@, opt_field(m.default_base));
    assert(take_field(suffix[0], "default_base_wsl_install_path: "@) == Some(
        opt_field(m.default_base),
    ));
    assert(suffix[1] == "private_registries:"@);
    assert(suffix.subrange(2, suffix.len() as int) =~= render_regs(m.regs)
        + Seq::<Seq<char>>::empty());
    lemma_parse_render_regs(m.regs, Seq::<Seq<char>>::empty());
    assert(opt_parse(opt_field(m.default_base)) == m.default_base);
    let parsed = StoreModel {
        wsls: m.wsls,
        default_base: opt_parse(opt_field(m.default_base)),
        regs: m.regs,
    };
    assert(parsed =~= m);
}

/// Saving and then loading is the identity: the document rendered for a
/// store, split back into lines and parsed, yields that store again.
pub proof fn lemma_config_round_trip(m: StoreModel)
    requires
        store_ok(m),
    ensures
        parse_store(split_sep(join_lines(render_store(m)), seq!['\n'])) == Some(m),
{
    let lines = render_store(m);
    lemma_prefixes_ok();
    lemma_render_wsls_lines_ok(m.wsls);
    lemma_render_regs_lines_ok(m.regs);
    assert forall|i: int| 0 <= i < lines.len() implies text_ok(#[trigger] lines[i]) by {
        let a = seq!["wsls:"@];
        let b = render_wsls(m.wsls);
        let dline = "default_base_wsl_install_path: "@ + opt_field(m.default_base);
        assert(lines =~= a + b + seq![dline] + seq!["private_registries:"@] + render_regs(m.regs));
        if i == 0 {
            assert(lines[i] == "wsls:"@);
        } else if i < 1 + b.len() {
            assert(lines[i] == b[i - 1]);
        } else if i == 1 + b.len() {
            assert(lines[i] == dline);
            lemma_line_ok("default_base_wsl_install_path: "@, opt_field(m.default_base));
        } else if i == 2 + b.len() {
            assert(lines[i] == "private_registries:"@);
        } else {
            assert(lines[i] == render_regs(m.regs)[i - 3 - b.len()]);
        }
    }
    assert(lines.len() >= 1);
    lemma_split_join(lines);
    lemma_parse_render_store(m);
}

/// An optional value as its line fragment.
fn opt_str(o: &Option<String>) -> (r: &str)
    ensures
        r@ == opt_field(opt_view(*o)),
{
    match o {
        Some(v) => v.as_str(),
        None => "~",
    }
}

/// Lines joined by single line breaks, with no trailing break.
fn join_lines_exec(lines: &Vec<String>) -> (r: String)
    requires
        lines@.len() >= 1,
    ensures
        r@ == join_lines(lines.deep_view()),
{
    let mut s: String = lines[0].clone();
    proof {
        assert(lines.deep_view().subrange(0, 1) =~= seq![lines.deep_view()[0]]);
        assert(join_lines(seq![lines.deep_view()[0]]) == lines.deep_view()[0]);
    }
    let mut i: usize = 1;
    while i < lines.len()
        invariant
            1 <= i <= lines@.len(),
            lines@.len() == lines.deep_view().len(),
            s@ == join_lines(lines.deep_view().subrange(0, i as int)),
        decreases lines@.len() - i,
    {
        s.append("\n");
        s.append(lines[i].as_str());
        proof {
            reveal_strlit("\n");
            assert("\n"@ =~= seq!['\n']);
            let dv = lines.deep_view();
            lemma_join_push(dv.subrange(0, i as int), dv[i as int]);
            assert(dv.subrange(0, i + 1) =~= dv.subrange(0, i as int).push(dv[i as int]));
        }
        i += 1;
    }
    proof {
        assert(lines.deep_view().subrange(0, lines.deep_view().len() as int)
            =~= lines.deep_view());
    }
    s
}

/// Writes the store out as its document text.
pub fn render_dockerwsl_text(conf: &DockerWslConf) -> (r: String)
    ensures
        r@ == join_lines(render_store(store_view(*conf))),
{
    let mut lines: Vec<String> = Vec::new();
    lines.push(String::from_str("wsls:"));
    proof {
        assert(render_wsls(wsl_models(conf.wsls@).subrange(0, 0)) == Seq::<Seq<char>>::empty());
        assert(lines.deep_view() =~= seq!["wsls:"@] + render_wsls(
            wsl_models(conf.wsls@).subrange(0, 0),
        ));
    }
    let mut i: usize = 0;
    while i < conf.wsls.len()
        invariant
            i <= conf.wsls@.len(),
            lines.deep_view() =~= seq!["wsls:"@] + render_wsls(
                wsl_models(conf.wsls@).subrange(0, i as int),
            ),
        decreases conf.wsls@.len() - i,
    {
        let w = &conf.wsls[i];
        let ghost models = wsl_models(conf.wsls@);
        let ghost before = lines.deep_view();
        lines.push(str_concat("- name: ", w.name.as_str()));
        lines.push(str_concat("  image: ", w.image.as_str()));
        lines.push(str_concat("  latest: ", opt_str(&w.latest)));
        lines.push(str_concat("  windows_terminal_profile_id: ", w.windows_terminal_profile_id.as_str()));
        lines.push(str_concat("  base_install_path: ", w.base_install_path.as_str()));
        proof {
            lemma_render_wsls_push(models.subrange(0, i as int), models[i as int]);
            assert(models.subrange(0, i + 1) =~= models.subrange(0, i as int).push(
                models[i as int],
            ));
            assert(lines.deep_view() =~= before + render_wsl(models[i as int]));
            assert(lines.deep_view() =~= seq!["wsls:"@] + render_wsls(models.subrange(0, i + 1)));
        }
        i += 1;
    }
    proof {
        assert(wsl_models(conf.wsls@).subrange(0, conf.wsls@.len() as int) =~= wsl_models(
            conf.wsls@,
        ));
    }
    lines.push(str_concat("default_base_wsl_install_path: ", opt_str(
        &conf.default_base_wsl_install_path,
    )));
    lines.push(String::from_str("private_registries:"));
    let ghost mid = lines.deep_view();
    proof {
        assert(render_regs(reg_models(conf.private_registries@).subrange(0, 0)) == Seq::<
            Seq<char>,
        >::empty());
        assert(mid =~= mid + render_regs(reg_models(conf.private_registries@).subrange(0, 0)));
    }
    let mut k: usize = 0;
    while k < conf.private_registries.len()
        invariant
            k <= conf.private_registries@.len(),
            lines.deep_view() =~= mid + render_regs(
                reg_models(conf.private_registries@).subrange(0, k as int),
            ),
        decreases conf.private_registries@.len() - k,
    {
        let rg = &conf.private_registries[k];
        let ghost models = reg_models(conf.private_registries@);
        let ghost before = lines.deep_view();
        lines.push(str_concat("- name: ", rg.name.as_str()));
        lines.push(str_concat("  username: ", rg.username.as_str()));
        lines.push(str_concat("  password: ", rg.password.as_str()));
        lines.push(str_concat("  tenant: ", opt_str(&rg.tenant)));
        proof {
            lemma_render_regs_push(models.subrange(0, k as int), models[k as int]);
            assert(models.subrange(0, k + 1) =~= models.subrange(0, k as int).push(
                models[k as int],
            ));
            assert(lines.deep_view() =~= before + render_reg(models[k as int]));
            assert(lines.deep_view() =~= mid + render_regs(models.subrange(0, k + 1)));
        }
        k += 1;
    }
    proof {
        assert(reg_models(conf.private_registries@).subrange(
            0,
            conf.private_registries@.len() as int,
        ) =~= reg_models(conf.private_registries@));
        assert(lines.deep_view() =~= render_store(store_view(*conf)));
    }
    join_lines_exec(&lines)
}

/// The value on a line after its fixed prefix.
fn field_after(line: &str, prefix: &str) -> (r: String)
    requires
        starts_with_spec(line@, prefix@),
    ensures
        r@ == line@.subrange(prefix@.len() as int, line@.len() as int),
{
    substring(line, prefix.unicode_len(), line.unicode_len())
}

/// An optional value read back off its line fragment.
fn parse_opt_exec(v: String) -> (r: Option<String>)
    ensures
        opt_view(r) == opt_parse(v@),
{
    if str_eq(v.as_str(), "~") {
        None
    } else {
        Some(v)
    }
}

/// Reads environment records off the lines from position `i`.
fn parse_wsls_exec(lines: &Vec<String>, i: usize) -> (r: Option<(Vec<WslConf>, usize)>)
    requires
        i <= lines@.len(),
    ensures
        ({
            let l = lines.deep_view();
            let n = l.len() as int;
            match r {
                Some(p) => i <= p.1 <= n && parse_wsls(l.subrange(i as int, n)) == Some(
                    (wsl_models(p.0@), l.subrange(p.1 as int, n)),
                ),
                None => parse_wsls(l.subrange(i as int, n)) is None,
            }
        }),
    decreases lines@.len() - i,
{
    let n = lines.len();
    let ghost l = lines.deep_view();
    let ghost sub = l.subrange(i as int, n as int);
    proof {
        assert(forall|k: int| 0 <= k < n ==> l[k] == lines@[k]@);
    }
    if i >= n || !str_starts_with(lines[i].as_str(), "- name: ") {
        proof {
            assert(wsl_models(Seq::<WslConf>::empty()) =~= Seq::<WslModel>::empty());
        }
        return Some((Vec::new(), i));
    }
    if n - i < 5 {
        return None;
    }
    if !str_starts_with(lines[i + 1].as_str(), "  image: ") {
        return None;
    }
    if !str_starts_with(lines[i + 2].as_str(), "  latest: ") {
        return None;
    }
    if !str_starts_with(lines[i + 3].as_str(), "  windows_terminal_profile_id: ") {
        return None;
    }
    if !str_starts_with(lines[i + 4].as_str(), "  base_install_path: ") {
        return None;
    }
    let name = field_after(lines[i].as_str(), "- name: ");
    let image = field_after(lines[i + 1].as_str(), "  image: ");
    let latest = parse_opt_exec(field_after(lines[i + 2].as_str(), "  latest: "));
    let profile = field_after(lines[i + 3].as_str(), "  windows_terminal_profile_id: ");
    let base = field_after(lines[i + 4].as_str(), "  base_install_path: ");
    let w = WslConf {
        name,
        image,
        latest,
        windows_terminal_profile_id: profile,
        base_install_path: base,
    };
    proof {
        assert(sub.subrange(5, sub.len() as int) =~= l.subrange(i + 5, n as int));
    }
    match parse_wsls_exec(lines, i + 5) {
        None => None,
        Some((mut ws, j)) => {
            let ghost before = ws@;
            ws.insert(0, w);
            proof {
                assert(sub[0] == l[i as int] && sub[1] == l[i + 1] && sub[2] == l[i + 2] && sub[3]
                    == l[i + 3] && sub[4] == l[i + 4]);
                let pm = WslModel {
                    name: sub[0].subrange("- name: "@.len() as int, sub[0].len() as int),
                    image: sub[1].subrange("  image: "@.len() as int, sub[1].len() as int),
                    latest: opt_parse(sub[2].subrange("  latest: "@.len() as int, sub[2].len() as int)),
                    profile_id: sub[3].subrange(
                        "  windows_terminal_profile_id: "@.len() as int,
                        sub[3].len() as int,
                    ),
                    base_install_path: sub[4].subrange(
                        "  base_install_path: "@.len() as int,
                        sub[4].len() as int,
                    ),
                };
                assert(wsl_view(w) =~= pm);
                assert(wsl_models(ws@) =~= seq![pm] + wsl_models(before));
            }
            Some((ws, j))
        },
    }
}

/// Reads registry credentials off the lines from position `i`.
fn parse_regs_exec(lines: &Vec<String>, i: usize) -> (r: Option<(Vec<Registry>, usize)>)
    requires
        i <= lines@.len(),
    ensures
        ({
            let l = lines.deep_view();
            let n = l.len() as int;
            match r {
                Some(p) => i <= p.1 <= n && parse_regs(l.subrange(i as int, n)) == Some(
                    (reg_models(p.0@), l.subrange(p.1 as int, n)),
                ),
                None => parse_regs(l.subrange(i as int, n)) is None,
            }
        }),
    decreases lines@.len() - i,
{
    let n = lines.len();
    let ghost l = lines.deep_view();
    let ghost sub = l.subrange(i as int, n as int);
    proof {
        assert(forall|k: int| 0 <= k < n ==> l[k] == lines@[k]@);
    }
    if i >= n || !str_starts_with(lines[i].as_str(), "- name: ") {
        proof {
            assert(reg_models(Seq::<Registry>::empty()) =~= Seq::<RegModel>::empty());
        }
        return Some((Vec::new(), i));
    }
    if n - i < 4 {
        return None;
    }
    if !str_starts_with(lines[i + 1].as_str(), "  username: ") {
        return None;
    }
    if !str_starts_with(lines[i + 2].as_str(), "  password: ") {
        return None;
    }
    if !str_starts_with(lines[i + 3].as_str(), "  tenant: ") {
        return None;
    }
    let name = field_after(lines[i].as_str(), "- name: ");
    let username = field_after(lines[i + 1].as_str(), "  username: ");
    let password = field_after(lines[i + 2].as_str(), "  password: ");
    let tenant = parse_opt_exec(field_after(lines[i + 3].as_str(), "  tenant: "));
    let rg = Registry { name, username, password, tenant };
    proof {
        assert(sub.subrange(4, sub.len() as int) =~= l.subrange(i + 4, n as int));
    }
    match parse_regs_exec(lines, i + 4) {
        None => None,
        Some((mut rs, j)) => {
            let ghost before = rs@;
            rs.insert(0, rg);
            proof {
                assert(sub[0] == l[i as int] && sub[1] == l[i + 1] && sub[2] == l[i + 2] && sub[3]
                    == l[i + 3]);
                let pm = RegModel {
                    name: sub[0].subrange("- name: "@.len() as int, sub[0].len() as int),
                    username: sub[1].subrange("  username: "@.len() as int, sub[1].len() as int),
                    password: sub[2].subrange("  password: "@.len() as int, sub[2].len() as int),
                    tenant: opt_parse(sub[3].subrange("  tenant: "@.len() as int, sub[3].len() as int)),
                };
                assert(reg_view(rg) =~= pm);
                assert(reg_models(rs@) =~= seq![pm] + reg_models(before));
            }
            Some((rs, j))
        },
    }
}

/// Reads a store out of its document text; anything that does not fit the
/// document's shape exactly is refused as corrupt.
pub fn parse_dockerwslconf_text(text: &str) -> (r: Result<DockerWslConf, DragonError>)
    ensures
        ({
            let l = split_sep(text@, seq!['\n']);
            match r {
                Ok(c) => parse_store(l) == Some(store_view(c)),
                Err(e) => e == DragonError::ConfigCorrupt && parse_store(l) is None,
            }
        }),
{
    let nl = "\n";
    proof {
        reveal_strlit("\n");
        assert(nl@ =~= seq!['\n']);
    }
    let lines = split_on_sep(text, nl);
    let n = lines.len();
    let ghost l = lines.deep_view();
    proof {
        assert(forall|k: int| 0 <= k < n ==> l[k] == lines@[k]@);
    }
    if n == 0 || !str_eq(lines[0].as_str(), "wsls:") {
        return Err(DragonError::ConfigCorrupt);
    }
    match parse_wsls_exec(&lines, 1) {
        None => Err(DragonError::ConfigCorrupt),
        Some((wsls, j)) => {
            let ghost rest = l.subrange(j as int, n as int);
            if n - j < 2 {
                return Err(DragonError::ConfigCorrupt);
            }
            proof {
                assert(rest[0] == l[j as int] && rest[1] == l[j + 1]);
            }
            if !str_starts_with(lines[j].as_str(), "default_base_wsl_install_path: ") {
                return Err(DragonError::ConfigCorrupt);
            }
            let default = parse_opt_exec(
                field_after(lines[j].as_str(), "default_base_wsl_install_path: "),
            );
            if !str_eq(lines[j + 1].as_str(), "private_registries:") {
                return Err(DragonError::ConfigCorrupt);
            }
            proof {
                assert(rest.subrange(2, rest.len() as int) =~= l.subrange(j + 2, n as int));
            }
            match parse_regs_exec(&lines, j + 2) {
                None => Err(DragonError::ConfigCorrupt),
                Some((regs, k2)) => {
                    if k2 < n {
                        proof {
                            assert(l.subrange(k2 as int, n as int).len() > 0);
                        }
                        return Err(DragonError::ConfigCorrupt);
                    }
                    let c = DockerWslConf {
                        wsls,
                        default_base_wsl_install_path: default,
                        private_registries: regs,
                    };
                    proof {
                        assert(l.subrange(k2 as int, n as int).len() == 0);
                        assert(parse_store(l) matches Some(m) && m =~= store_view(c));
                    }
                    Ok(c)
                },
            }
        },
    }
}

/// The store a possibly missing config document stands for: a document
/// that is not there bootstraps an empty store, and one that is there
/// must parse.
pub fn get_dockerwsl_content(file_text: Option<&str>) -> (r: Result<DockerWslConf, DragonError>)
    ensures
        match file_text {
            None => r matches Ok(c) && c.wsls@.len() == 0 && c.default_base_wsl_install_path
                is None && c.private_registries@.len() == 0,
            Some(t) => ({
                let l = split_sep(t@, seq!['\n']);
                match r {
                    Ok(c) => parse_store(l) == Some(store_view(c)),
                    Err(e) => e == DragonError::ConfigCorrupt && parse_store(l) is None,
                }
            }),
        },
{
    match file_text {
        None => Ok(crate::store::empty_conf()),
        Some(t) => parse_dockerwslconf_text(t),
    }
}

} // verus!
