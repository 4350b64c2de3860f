//! The durable registry of managed applications: `AppConfig` records keyed by
//! name, held in order inside `Config`, together with the text form in which
//! the registry is persisted. One application is one line of the file; the
//! fields of a line are space-terminated tokens; payload text is escaped so
//! that it can contain spaces, newlines and backslashes.

use vstd::prelude::*;

use crate::text::{
    cut, cut_str, esc, esc_str, free_of, glue, lemma_cut_glue, lemma_esc_clean, lemma_glue_clean,
    lemma_glue_push, lemma_unesc_esc, parts_free_of, push_char, unesc, unesc_str,
};

verus! {

/// One managed application. The name is the unique key of the registry;
/// re-registering a name overwrites the prior entry in place.
pub struct AppConfig {
    pub name: String,
    pub cmd: String,
    pub args: Vec<String>,
    pub cwd: String,
    pub enabled: bool,
    pub logdir: Option<String>,
}

/// The mathematical value of an `AppConfig`.
pub struct AppConfigView {
    pub name: Seq<char>,
    pub cmd: Seq<char>,
    pub args: Seq<Seq<char>>,
    pub cwd: Seq<char>,
    pub enabled: bool,
    pub logdir: Option<Seq<char>>,
}

impl View for AppConfig {
    type V = AppConfigView;

    open spec fn view(&self) -> AppConfigView {
        AppConfigView {
            name: self.name@,
            cmd: self.cmd@,
            args: self.args.deep_view(),
            cwd: self.cwd@,
            enabled: self.enabled,
            logdir: match self.logdir {
                Some(d) => Some(d@),
                None => None,
            },
        }
    }
}

impl DeepView for AppConfig {
    type V = AppConfigView;

    open spec fn deep_view(&self) -> AppConfigView {
        self.view()
    }
}

/// The registry: an ordered collection of applications, unique by name, that
/// owns the path of its backing file.
pub struct Config {
    pub apps: Vec<AppConfig>,
    pub config_filepath: String,
}

impl View for Config {
    type V = Seq<AppConfigView>;

    open spec fn view(&self) -> Seq<AppConfigView> {
        self.apps.deep_view()
    }
}

/// No two applications share a name.
pub open spec fn unique_names(apps: Seq<AppConfigView>) -> bool {
    forall|i: int, j: int| 0 <= i < j < apps.len() ==> apps[i].name != apps[j].name
}

// ---------------------------------------------------------------------------
// The persisted text form, specified bottom-up: tokens, lines, file.
// ---------------------------------------------------------------------------
/// Escaped forms of a sequence of payload strings.
pub open spec fn esc_all(args: Seq<Seq<char>>) -> Seq<Seq<char>>
    decreases args.len(),
{
    if args.len() == 0 {
        Seq::empty()
    } else {
        seq![esc(args[0])] + esc_all(args.drop_first())
    }
}

/// Inverse of `esc_all`.
pub open spec fn unesc_all(toks: Seq<Seq<char>>) -> Option<Seq<Seq<char>>>
    decreases toks.len(),
{
    if toks.len() == 0 {
        Some(Seq::empty())
    } else {
        match unesc(toks[0]) {
            None => None,
            Some(a) => match unesc_all(toks.drop_first()) {
                None => None,
                Some(r) => Some(seq![a] + r),
            },
        }
    }
}

/// The token that records whether the application is enabled.
pub open spec fn enabled_tok(b: bool) -> Seq<char> {
    if b {
        seq!['e']
    } else {
        seq!['d']
    }
}

/// The token that records the optional log directory.
pub open spec fn logdir_tok(l: Option<Seq<char>>) -> Seq<char> {
    match l {
        None => seq!['n'],
        Some(d) => seq!['l'] + esc(d),
    }
}

/// The tokens of one application's line: name, command, working directory,
/// enabled marker, log-directory token, then one token per argument.
pub open spec fn app_tokens(a: AppConfigView) -> Seq<Seq<char>> {
    seq![esc(a.name), esc(a.cmd), esc(a.cwd), enabled_tok(a.enabled), logdir_tok(a.logdir)]
        + esc_all(a.args)
}

/// One application's line.
pub open spec fn app_line(a: AppConfigView) -> Seq<char> {
    glue(app_tokens(a), ' ')
}

/// The lines of the whole registry.
pub open spec fn enc_lines(apps: Seq<AppConfigView>) -> Seq<Seq<char>>
    decreases apps.len(),
{
    if apps.len() == 0 {
        Seq::empty()
    } else {
        seq![app_line(apps[0])] + enc_lines(apps.drop_first())
    }
}

/// The persisted text of the whole registry.
pub open spec fn spec_encode(apps: Seq<AppConfigView>) -> Seq<char> {
    glue(enc_lines(apps), '\n')
}

/// Reading back the enabled marker.
pub open spec fn parse_enabled(t: Seq<char>) -> Option<bool> {
    if t == seq!['e'] {
        Some(true)
    } else if t == seq!['d'] {
        Some(false)
    } else {
        None
    }
}

/// Reading back the log-directory token.
pub open spec fn parse_logdir(t: Seq<char>) -> Option<Option<Seq<char>>> {
    if t.len() == 0 {
        None
    } else if t[0] == 'n' {
        if t.len() == 1 {
            Some(None)
        } else {
            None
        }
    } else if t[0] == 'l' {
        match unesc(t.drop_first()) {
            None => None,
            Some(d) => Some(Some(d)),
        }
    } else {
        None
    }
}

/// Reading back one application from the tokens of its line.
pub open spec fn parse_app(toks: Seq<Seq<char>>) -> Option<AppConfigView> {
    if toks.len() < 5 {
        None
    } else {
        let n = unesc(toks[0]);
        let c = unesc(toks[1]);
        let w = unesc(toks[2]);
        let e = parse_enabled(toks[3]);
        let l = parse_logdir(toks[4]);
        let ar = unesc_all(toks.skip(5));
        if n is Some && c is Some && w is Some && e is Some && l is Some && ar is Some {
            Some(
                AppConfigView {
                    name: n->Some_0,
                    cmd: c->Some_0,
                    args: ar->Some_0,
                    cwd: w->Some_0,
                    enabled: e->Some_0,
                    logdir: l->Some_0,
                },
            )
        } else {
            None
        }
    }
}

/// Reading back the whole registry from its lines.
pub open spec fn parse_lines(lines: Seq<Seq<char>>) -> Option<Seq<AppConfigView>>
    decreases lines.len(),
{
    if lines.len() == 0 {
        Some(Seq::empty())
    } else {
        match cut(lines[0], ' ') {
            None => None,
            Some(toks) => match parse_app(toks) {
                None => None,
                Some(a) => match parse_lines(lines.drop_first()) {
                    None => None,
                    Some(r) => Some(seq![a] + r),
                },
            },
        }
    }
}

/// Reading back the whole registry from the persisted text. A registry whose
/// names are not unique is malformed.
pub open spec fn spec_decode(s: Seq<char>) -> Option<Seq<AppConfigView>> {
    match cut(s, '\n') {
        None => None,
        Some(lines) => match parse_lines(lines) {
            None => None,
            Some(apps) => if unique_names(apps) {
                Some(apps)
            } else {
                None
            },
        },
    }
}

// ---------------------------------------------------------------------------
// The round trip: decoding what was encoded gives the registry back.
// ---------------------------------------------------------------------------
/// Unescaping each token of `esc_all` gives the payloads back.
proof fn lemma_unesc_all_esc_all(args: Seq<Seq<char>>)
    ensures
        unesc_all(esc_all(args)) == Some(args),
    decreases args.len(),
{
    if args.len() == 0 {
    } else {
        lemma_unesc_all_esc_all(args.drop_first());
        lemma_unesc_esc(args[0]);
        let toks = esc_all(args);
        assert(toks[0] == esc(args[0]));
        assert(toks.drop_first() =~= esc_all(args.drop_first()));
        assert(seq![args[0]] + args.drop_first() =~= args);
    }
}

/// Every token of `esc_all` is free of the two separators.
proof fn lemma_esc_all_clean(args: Seq<Seq<char>>, c: char)
    requires
        c == '\n' || c == ' ',
    ensures
        parts_free_of(esc_all(args), c),
    decreases args.len(),
{
    if args.len() > 0 {
        lemma_esc_all_clean(args.drop_first(), c);
        lemma_esc_clean(args[0]);
        let toks = esc_all(args);
        assert forall|i: int| 0 <= i < toks.len() implies free_of(#[trigger] toks[i], c) by {
            if i > 0 {
                assert(toks[i] == esc_all(args.drop_first())[i - 1]);
            }
        }
    }
}

/// Every token of an application's line is free of the two separators.
proof fn lemma_app_tokens_clean(a: AppConfigView, c: char)
    requires
        c == '\n' || c == ' ',
    ensures
        parts_free_of(app_tokens(a), c),
{
    lemma_esc_all_clean(a.args, c);
    lemma_esc_clean(a.name);
    lemma_esc_clean(a.cmd);
    lemma_esc_clean(a.cwd);
    if a.logdir is Some {
        lemma_esc_clean(a.logdir->Some_0);
    }
    let toks = app_tokens(a);
    assert forall|i: int| 0 <= i < toks.len() implies free_of(#[trigger] toks[i], c) by {
        if i >= 5 {
            assert(toks[i] == esc_all(a.args)[i - 5]);
        }
    }
}

/// An application's line is free of newlines.
proof fn lemma_app_line_clean(a: AppConfigView)
    ensures
        free_of(app_line(a), '\n'),
{
    lemma_app_tokens_clean(a, '\n');
    lemma_glue_clean(app_tokens(a), ' ', '\n');
}

/// Parsing the tokens of an application's line gives the application back.
proof fn lemma_parse_app_tokens(a: AppConfigView)
    ensures
        parse_app(app_tokens(a)) == Some(a),
{
    let toks = app_tokens(a);
    lemma_unesc_esc(a.name);
    lemma_unesc_esc(a.cmd);
    lemma_unesc_esc(a.cwd);
    lemma_unesc_all_esc_all(a.args);
    assert(toks.len() >= 5);
    assert(toks[0] == esc(a.name));
    assert(toks[1] == esc(a.cmd));
    assert(toks[2] == esc(a.cwd));
    assert(toks[3] == enabled_tok(a.enabled));
    assert(toks[4] == logdir_tok(a.logdir));
    assert(toks.skip(5) =~= esc_all(a.args));
    if a.enabled {
        assert(parse_enabled(enabled_tok(true)) == Some(true));
    } else {
        assert(seq!['d'] != seq!['e']) by {
            assert(seq!['d'][0] == 'd');
            assert(seq!['e'][0] == 'e');
        }
        assert(parse_enabled(enabled_tok(false)) == Some(false));
    }
    match a.logdir {
        None => {
            assert(parse_logdir(logdir_tok(a.logdir)) == Some(a.logdir));
        },
        Some(d) => {
            lemma_unesc_esc(d);
            assert(logdir_tok(a.logdir).drop_first() =~= esc(d));
            assert(parse_logdir(logdir_tok(a.logdir)) == Some(a.logdir));
        },
    }
}

/// Parsing the lines of an encoded registry gives the registry back.
proof fn lemma_parse_enc_lines(apps: Seq<AppConfigView>)
    ensures
        parse_lines(enc_lines(apps)) == Some(apps),
    decreases apps.len(),
{
    if apps.len() == 0 {
    } else {
        lemma_parse_enc_lines(apps.drop_first());
        lemma_app_tokens_clean(apps[0], ' ');
        lemma_cut_glue(app_tokens(apps[0]), ' ');
        lemma_parse_app_tokens(apps[0]);
        let lines = enc_lines(apps);
        assert(lines[0] == app_line(apps[0]));
        assert(lines.drop_first() =~= enc_lines(apps.drop_first()));
        assert(seq![apps[0]] + apps.drop_first() =~= apps);
    }
}

/// The lines of an encoded registry are free of newlines.
proof fn lemma_enc_lines_clean(apps: Seq<AppConfigView>)
    ensures
        parts_free_of(enc_lines(apps), '\n'),
    decreases apps.len(),
{
    if apps.len() > 0 {
        lemma_enc_lines_clean(apps.drop_first());
        lemma_app_line_clean(apps[0]);
        let lines = enc_lines(apps);
        assert forall|i: int| 0 <= i < lines.len() implies free_of(#[trigger] lines[i], '\n') by {
            if i > 0 {
                assert(lines[i] == enc_lines(apps.drop_first())[i - 1]);
            }
        }
    }
}

/// The round trip of the persisted registry: decoding the encoded text of any
/// registry with unique names reproduces the registry exactly.
pub proof fn lemma_decode_encode(apps: Seq<AppConfigView>)
    requires
        unique_names(apps),
    ensures
        spec_decode(spec_encode(apps)) == Some(apps),
{
    lemma_enc_lines_clean(apps);
    lemma_cut_glue(enc_lines(apps), '\n');
    lemma_parse_enc_lines(apps);
}

// ---------------------------------------------------------------------------
// Registry operations, as functions on the mathematical registry.
// ---------------------------------------------------------------------------
/// Some application of the registry bears this name.
pub open spec fn has_app(apps: Seq<AppConfigView>, name: Seq<char>) -> bool {
    exists|i: int| 0 <= i < apps.len() && apps[i].name == name
}

/// Replace-by-name or append: what `add_config` does to the registry.
pub open spec fn upsert_spec(apps: Seq<AppConfigView>, a: AppConfigView) -> Seq<AppConfigView>
    decreases apps.len(),
{
    if apps.len() == 0 {
        seq![a]
    } else if apps[0].name == a.name {
        seq![a] + apps.drop_first()
    } else {
        seq![apps[0]] + upsert_spec(apps.drop_first(), a)
    }
}

/// Set the enabled flag of the named application, or change nothing: what
/// `enable` does to the registry.
pub open spec fn set_enabled_spec(
    apps: Seq<AppConfigView>,
    name: Seq<char>,
    b: bool,
) -> Seq<AppConfigView>
    decreases apps.len(),
{
    if apps.len() == 0 {
        Seq::empty()
    } else if apps[0].name == name {
        seq![(AppConfigView { enabled: b, ..apps[0] })] + apps.drop_first()
    } else {
        seq![apps[0]] + set_enabled_spec(apps.drop_first(), name, b)
    }
}

/// When the name already stands at index `i`, upserting updates in place.
proof fn lemma_upsert_update(apps: Seq<AppConfigView>, a: AppConfigView, i: int)
    requires
        0 <= i < apps.len(),
        apps[i].name == a.name,
        forall|j: int| 0 <= j < i ==> apps[j].name != a.name,
    ensures
        upsert_spec(apps, a) == apps.update(i, a),
    decreases apps.len(),
{
    if i == 0 {
        assert(seq![a] + apps.drop_first() =~= apps.update(0, a));
    } else {
        assert(apps.drop_first()[i - 1] == apps[i]);
        assert forall|j: int| 0 <= j < i - 1 implies apps.drop_first()[j].name != a.name by {
            assert(apps.drop_first()[j] == apps[j + 1]);
        }
        lemma_upsert_update(apps.drop_first(), a, i - 1);
        assert(seq![apps[0]] + apps.drop_first().update(i - 1, a) =~= apps.update(i, a));
    }
}

/// When the name is absent, upserting appends.
proof fn lemma_upsert_absent(apps: Seq<AppConfigView>, a: AppConfigView)
    requires
        forall|j: int| 0 <= j < apps.len() ==> apps[j].name != a.name,
    ensures
        upsert_spec(apps, a) == apps.push(a),
    decreases apps.len(),
{
    if apps.len() == 0 {
        assert(seq![a] =~= apps.push(a));
    } else {
        assert forall|j: int| 0 <= j < apps.drop_first().len() implies apps.drop_first()[j].name
            != a.name by {
            assert(apps.drop_first()[j] == apps[j + 1]);
        }
        lemma_upsert_absent(apps.drop_first(), a);
        assert(seq![apps[0]] + apps.drop_first().push(a) =~= apps.push(a));
    }
}

/// When the name stands at index `i`, setting the flag updates in place.
proof fn lemma_set_enabled_update(apps: Seq<AppConfigView>, name: Seq<char>, b: bool, i: int)
    requires
        0 <= i < apps.len(),
        apps[i].name == name,
        forall|j: int| 0 <= j < i ==> apps[j].name != name,
    ensures
        set_enabled_spec(apps, name, b) == apps.update(i, (AppConfigView { enabled: b, ..apps[i] })),
    decreases apps.len(),
{
    if i == 0 {
        assert(seq![(AppConfigView { enabled: b, ..apps[0] })] + apps.drop_first() =~= apps.update(
            0,
            (AppConfigView { enabled: b, ..apps[0] }),
        ));
    } else {
        assert(apps.drop_first()[i - 1] == apps[i]);
        assert forall|j: int| 0 <= j < i - 1 implies apps.drop_first()[j].name != name by {
            assert(apps.drop_first()[j] == apps[j + 1]);
        }
        lemma_set_enabled_update(apps.drop_first(), name, b, i - 1);
        assert(seq![apps[0]] + apps.drop_first().update(
            i - 1,
            (AppConfigView { enabled: b, ..apps[i] }),
        ) =~= apps.update(i, (AppConfigView { enabled: b, ..apps[i] })));
    }
}

/// When the name is absent, setting the flag changes nothing.
proof fn lemma_set_enabled_absent(apps: Seq<AppConfigView>, name: Seq<char>, b: bool)
    requires
        forall|j: int| 0 <= j < apps.len() ==> apps[j].name != name,
    ensures
        set_enabled_spec(apps, name, b) == apps,
    decreases apps.len(),
{
    if apps.len() == 0 {
        assert(set_enabled_spec(apps, name, b) =~= apps);
    } else {
        assert forall|j: int| 0 <= j < apps.drop_first().len() implies apps.drop_first()[j].name
            != name by {
            assert(apps.drop_first()[j] == apps[j + 1]);
        }
        lemma_set_enabled_absent(apps.drop_first(), name, b);
        assert(seq![apps[0]] + apps.drop_first() =~= apps);
    }
}

/// Upserting keeps the names unique, and the upserted name is present.
pub proof fn lemma_upsert_unique(apps: Seq<AppConfigView>, a: AppConfigView)
    requires
        unique_names(apps),
    ensures
        unique_names(upsert_spec(apps, a)),
        has_app(upsert_spec(apps, a), a.name),
    decreases apps.len(),
{
    if apps.len() == 0 {
        let r = upsert_spec(apps, a);
        assert(r[0] == a);
    } else if apps[0].name == a.name {
        let r = seq![a] + apps.drop_first();
        assert(r[0] == a);
        assert forall|i: int, j: int| 0 <= i < j < r.len() implies r[i].name != r[j].name by {
            if i > 0 {
                assert(r[i] == apps[i]);
            }
            assert(r[j] == apps[j]);
            assert(apps[0].name == a.name);
        }
    } else {
        assert forall|i: int, j: int|
            0 <= i < j < apps.drop_first().len() implies apps.drop_first()[i].name
            != apps.drop_first()[j].name by {
            assert(apps.drop_first()[i] == apps[i + 1]);
            assert(apps.drop_first()[j] == apps[j + 1]);
        }
        lemma_upsert_unique(apps.drop_first(), a);
        let sub = upsert_spec(apps.drop_first(), a);
        let r = seq![apps[0]] + sub;
        assert(has_app(sub, a.name));
        let w = choose|i: int| 0 <= i < sub.len() && sub[i].name == a.name;
        assert(r[w + 1] == sub[w]);
        assert(has_app(r, a.name));
        assert forall|i: int, j: int| 0 <= i < j < r.len() implies r[i].name != r[j].name by {
            if i == 0 {
                assert(r[j] == sub[j - 1]);
                lemma_upsert_names(apps.drop_first(), a, j - 1);
            } else {
                assert(r[i] == sub[i - 1]);
                assert(r[j] == sub[j - 1]);
            }
        }
    }
}

/// Every name of an upserted registry is the new name or an old one.
proof fn lemma_upsert_names(apps: Seq<AppConfigView>, a: AppConfigView, i: int)
    requires
        0 <= i < upsert_spec(apps, a).len(),
    ensures
        upsert_spec(apps, a)[i].name == a.name || has_app(apps, upsert_spec(apps, a)[i].name),
    decreases apps.len(),
{
    let r = upsert_spec(apps, a);
    if apps.len() == 0 {
    } else if apps[0].name == a.name {
        if i > 0 {
            assert(r[i] == apps[i]);
        }
    } else {
        if i == 0 {
            assert(r[0] == apps[0]);
        } else {
            assert(r[i] == upsert_spec(apps.drop_first(), a)[i - 1]);
            lemma_upsert_names(apps.drop_first(), a, i - 1);
            if upsert_spec(apps.drop_first(), a)[i - 1].name != a.name {
                let w = choose|k: int|
                    0 <= k < apps.drop_first().len() && apps.drop_first()[k].name == r[i].name;
                assert(apps[w + 1] == apps.drop_first()[w]);
            }
        }
    }
}

/// Setting the enabled flag keeps the names, in their places, hence unique.
pub proof fn lemma_set_enabled_names(apps: Seq<AppConfigView>, name: Seq<char>, b: bool)
    ensures
        set_enabled_spec(apps, name, b).len() == apps.len(),
        forall|i: int|
            0 <= i < apps.len() ==> #[trigger] set_enabled_spec(apps, name, b)[i].name
                == apps[i].name,
        unique_names(apps) ==> unique_names(set_enabled_spec(apps, name, b)),
    decreases apps.len(),
{
    if apps.len() > 0 {
        lemma_set_enabled_names(apps.drop_first(), name, b);
        let r = set_enabled_spec(apps, name, b);
        if apps[0].name == name {
            assert forall|i: int| 0 <= i < apps.len() implies #[trigger] r[i].name
                == apps[i].name by {
                if i > 0 {
                    assert(r[i] == apps[i]);
                }
            }
        } else {
            assert forall|i: int| 0 <= i < apps.len() implies #[trigger] r[i].name
                == apps[i].name by {
                if i > 0 {
                    assert(r[i] == set_enabled_spec(apps.drop_first(), name, b)[i - 1]);
                    assert(apps.drop_first()[i - 1] == apps[i]);
                }
            }
        }
    }
}

/// Adding a name twice keeps exactly one entry for it, bearing the second
/// call's values: the first addition is overwritten in place.
pub proof fn lemma_add_idempotent_by_name(
    apps: Seq<AppConfigView>,
    a1: AppConfigView,
    a2: AppConfigView,
)
    requires
        a1.name == a2.name,
        unique_names(apps),
    ensures
        upsert_spec(upsert_spec(apps, a1), a2) == upsert_spec(apps, a2),
        unique_names(upsert_spec(upsert_spec(apps, a1), a2)),
        has_app(upsert_spec(upsert_spec(apps, a1), a2), a2.name),
        forall|i: int|
            0 <= i < upsert_spec(upsert_spec(apps, a1), a2).len() && #[trigger] upsert_spec(
                upsert_spec(apps, a1),
                a2,
            )[i].name == a2.name ==> upsert_spec(upsert_spec(apps, a1), a2)[i] == a2,
    decreases apps.len(),
{
    lemma_upsert_unique(apps, a1);
    lemma_upsert_unique(upsert_spec(apps, a1), a2);
    if apps.len() == 0 {
        assert(upsert_spec(upsert_spec(apps, a1), a2) =~= upsert_spec(apps, a2));
    } else if apps[0].name == a1.name {
        let u1 = seq![a1] + apps.drop_first();
        assert(u1[0] == a1);
        assert(u1.drop_first() =~= apps.drop_first());
        assert(upsert_spec(upsert_spec(apps, a1), a2) =~= upsert_spec(apps, a2));
    } else {
        lemma_add_idempotent_by_name(apps.drop_first(), a1, a2);
        let u1 = seq![apps[0]] + upsert_spec(apps.drop_first(), a1);
        assert(u1[0] == apps[0]);
        assert(u1.drop_first() =~= upsert_spec(apps.drop_first(), a1));
        assert(upsert_spec(upsert_spec(apps, a1), a2) =~= upsert_spec(apps, a2));
    }
    let r = upsert_spec(upsert_spec(apps, a1), a2);
    assert forall|i: int|
        0 <= i < r.len() && #[trigger] r[i].name == a2.name implies r[i] == a2 by {
        let w = choose|k: int| 0 <= k < r.len() && r[k].name == a2.name && r[k] == a2;
        lemma_upsert_holds(upsert_spec(apps, a1), a2);
        if r[i] != a2 {
            let w2 = choose|k: int| 0 <= k < r.len() && r[k] == a2;
            assert(r[i].name == r[w2].name);
        }
    }
}

/// The application of the registry that bears this name (meaningful when
/// `has_app` holds and the names are unique).
pub open spec fn the_app(apps: Seq<AppConfigView>, name: Seq<char>) -> AppConfigView {
    apps[choose|i: int| 0 <= i < apps.len() && apps[i].name == name]
}

/// With unique names, any entry bearing the name is `the_app`.
pub proof fn lemma_the_app(apps: Seq<AppConfigView>, name: Seq<char>, i: int)
    requires
        unique_names(apps),
        0 <= i < apps.len(),
        apps[i].name == name,
    ensures
        the_app(apps, name) == apps[i],
        has_app(apps, name),
{
    let j = choose|j: int| 0 <= j < apps.len() && apps[j].name == name;
    assert(apps[i].name == name);
    assert(0 <= j < apps.len() && apps[j].name == name);
    if i != j {
        if i < j {
            assert(apps[i].name != apps[j].name);
        } else {
            assert(apps[j].name != apps[i].name);
        }
    }
}

/// After an upsert, the named application is exactly the upserted one.
pub proof fn lemma_upsert_the_app(apps: Seq<AppConfigView>, a: AppConfigView)
    requires
        unique_names(apps),
    ensures
        unique_names(upsert_spec(apps, a)),
        has_app(upsert_spec(apps, a), a.name),
        the_app(upsert_spec(apps, a), a.name) == a,
{
    lemma_upsert_unique(apps, a);
    lemma_upsert_holds(apps, a);
    let r = upsert_spec(apps, a);
    let i = choose|i: int| 0 <= i < r.len() && r[i] == a;
    lemma_the_app(r, a.name, i);
}

/// Setting the enabled flag changes exactly that flag of the named
/// application and nothing else about the registry's names.
pub proof fn lemma_set_enabled_the_app(apps: Seq<AppConfigView>, name: Seq<char>, b: bool)
    requires
        unique_names(apps),
        has_app(apps, name),
    ensures
        unique_names(set_enabled_spec(apps, name, b)),
        has_app(set_enabled_spec(apps, name, b), name),
        the_app(set_enabled_spec(apps, name, b), name) == (AppConfigView {
            enabled: b,
            ..the_app(apps, name)
        }),
{
    lemma_set_enabled_names(apps, name, b);
    let i = choose|i: int| 0 <= i < apps.len() && apps[i].name == name;
    lemma_the_app(apps, name, i);
    assert forall|j: int| 0 <= j < i implies apps[j].name != name by {
        assert(apps[j].name != apps[i].name);
    }
    lemma_set_enabled_update(apps, name, b, i);
    let r = set_enabled_spec(apps, name, b);
    assert(r[i] == (AppConfigView { enabled: b, ..apps[i] }));
    lemma_the_app(r, name, i);
}

/// `enc_lines` adds one line per added application.
proof fn lemma_enc_lines_push(apps: Seq<AppConfigView>, a: AppConfigView)
    ensures
        enc_lines(apps.push(a)) == enc_lines(apps).push(app_line(a)),
    decreases apps.len(),
{
    let p = apps.push(a);
    if apps.len() == 0 {
        assert(p[0] == a);
        assert(p.drop_first() =~= Seq::<AppConfigView>::empty());
        assert(enc_lines(p.drop_first()) == Seq::<Seq<char>>::empty());
        assert(enc_lines(p) == seq![app_line(p[0])] + enc_lines(p.drop_first()));
        assert(enc_lines(p) =~= enc_lines(apps).push(app_line(a)));
    } else {
        lemma_enc_lines_push(apps.drop_first(), a);
        assert(p[0] == apps[0]);
        assert(p.drop_first() =~= apps.drop_first().push(a));
        assert(enc_lines(p) == seq![app_line(apps[0])] + enc_lines(apps.drop_first().push(a)));
        assert(enc_lines(apps) == seq![app_line(apps[0])] + enc_lines(apps.drop_first()));
        assert(enc_lines(p) =~= enc_lines(apps).push(app_line(a)));
    }
}

/// `esc_all` adds one token per added payload.
proof fn lemma_esc_all_push(args: Seq<Seq<char>>, x: Seq<char>)
    ensures
        esc_all(args.push(x)) == esc_all(args).push(esc(x)),
    decreases args.len(),
{
    let p = args.push(x);
    if args.len() == 0 {
        assert(p[0] == x);
        assert(p.drop_first() =~= Seq::<Seq<char>>::empty());
        assert(esc_all(p.drop_first()) == Seq::<Seq<char>>::empty());
        assert(esc_all(p) == seq![esc(p[0])] + esc_all(p.drop_first()));
        assert(esc_all(p) =~= esc_all(args).push(esc(x)));
    } else {
        lemma_esc_all_push(args.drop_first(), x);
        assert(p[0] == args[0]);
        assert(p.drop_first() =~= args.drop_first().push(x));
        assert(esc_all(p) == seq![esc(args[0])] + esc_all(args.drop_first().push(x)));
        assert(esc_all(args) == seq![esc(args[0])] + esc_all(args.drop_first()));
        assert(esc_all(p) =~= esc_all(args).push(esc(x)));
    }
}

/// The upserted entry itself stands in the result.
proof fn lemma_upsert_holds(apps: Seq<AppConfigView>, a: AppConfigView)
    ensures
        exists|i: int| 0 <= i < upsert_spec(apps, a).len() && upsert_spec(apps, a)[i] == a,
    decreases apps.len(),
{
    let r = upsert_spec(apps, a);
    if apps.len() == 0 {
        assert(r[0] == a);
    } else if apps[0].name == a.name {
        assert(r[0] == a);
    } else {
        lemma_upsert_holds(apps.drop_first(), a);
        let w = choose|i: int|
            0 <= i < upsert_spec(apps.drop_first(), a).len() && upsert_spec(apps.drop_first(), a)[i]
                == a;
        assert(r[w + 1] == a);
    }
}

// ---------------------------------------------------------------------------
// The executable registry.
// ---------------------------------------------------------------------------
/// The persisted registry text was malformed; the caller must not proceed
/// with a half-parsed registry.
pub struct ConfigParseError;

/// One line of the file, for one application.
fn encode_app_line(a: &AppConfig) -> (r: String)
    ensures
        r@ == app_line(a@),
{
    let mut line = String::new();
    let ghost mut toks: Seq<Seq<char>> = Seq::empty();
    proof {
        assert(line@ =~= glue(toks, ' '));
    }
    let t0 = esc_str(a.name.as_str());
    line.append(t0.as_str());
    push_char(&mut line, ' ');
    proof {
        lemma_glue_push(toks, esc(a@.name), ' ');
        toks = toks.push(esc(a@.name));
        assert(line@ =~= glue(toks, ' '));
    }
    let t1 = esc_str(a.cmd.as_str());
    line.append(t1.as_str());
    push_char(&mut line, ' ');
    proof {
        lemma_glue_push(toks, esc(a@.cmd), ' ');
        toks = toks.push(esc(a@.cmd));
        assert(line@ =~= glue(toks, ' '));
    }
    let t2 = esc_str(a.cwd.as_str());
    line.append(t2.as_str());
    push_char(&mut line, ' ');
    proof {
        lemma_glue_push(toks, esc(a@.cwd), ' ');
        toks = toks.push(esc(a@.cwd));
        assert(line@ =~= glue(toks, ' '));
    }
    if a.enabled {
        push_char(&mut line, 'e');
    } else {
        push_char(&mut line, 'd');
    }
    push_char(&mut line, ' ');
    proof {
        lemma_glue_push(toks, enabled_tok(a@.enabled), ' ');
        toks = toks.push(enabled_tok(a@.enabled));
        assert(line@ =~= glue(toks, ' '));
    }
    match &a.logdir {
        None => {
            push_char(&mut line, 'n');
        },
        Some(d) => {
            push_char(&mut line, 'l');
            let td = esc_str(d.as_str());
            line.append(td.as_str());
        },
    }
    push_char(&mut line, ' ');
    proof {
        lemma_glue_push(toks, logdir_tok(a@.logdir), ' ');
        if a@.logdir is Some {
            assert(logdir_tok(a@.logdir) =~= seq!['l'] + esc(a@.logdir->Some_0));
        } else {
            assert(logdir_tok(a@.logdir) =~= seq!['n']);
        }
        toks = toks.push(logdir_tok(a@.logdir));
        assert(line@ =~= glue(toks, ' '));
    }
    let ghost head = toks;
    proof {
        assert(a@.args.take(0) =~= Seq::<Seq<char>>::empty());
        assert(esc_all(a@.args.take(0)) =~= Seq::<Seq<char>>::empty());
        assert(toks =~= head + esc_all(a@.args.take(0)));
    }
    let m = a.args.len();
    for j in 0..m
        invariant
            m == a.args.len(),
            toks == head + esc_all(a@.args.take(j as int)),
            line@ == glue(toks, ' '),
    {
        let tj = esc_str(a.args[j].as_str());
        line.append(tj.as_str());
        push_char(&mut line, ' ');
        proof {
            assert(a.args@[j as int]@ == a@.args[j as int]);
            lemma_glue_push(toks, esc(a@.args[j as int]), ' ');
            lemma_esc_all_push(a@.args.take(j as int), a@.args[j as int]);
            assert(a@.args.take(j + 1) =~= a@.args.take(j as int).push(a@.args[j as int]));
            toks = toks.push(esc(a@.args[j as int]));
            assert(toks =~= head + esc_all(a@.args.take(j + 1)));
            assert(line@ =~= glue(toks, ' '));
        }
    }
    proof {
        assert(a@.args.take(m as int) =~= a@.args);
        assert(toks =~= app_tokens(a@));
    }
    line
}

/// Unescaped payloads of the tokens of one line from position `j` on.
fn unesc_all_from(toks: &Vec<String>, j: usize) -> (r: Option<Vec<String>>)
    requires
        j <= toks.len(),
    ensures
        match r {
            Some(v) => unesc_all(toks.deep_view().skip(j as int)) == Some(v.deep_view()),
            None => unesc_all(toks.deep_view().skip(j as int)) is None,
        },
    decreases toks.len() - j,
{
    if j == toks.len() {
        let v: Vec<String> = Vec::new();
        proof {
            assert(toks.deep_view().skip(j as int) =~= Seq::<Seq<char>>::empty());
            assert(v.deep_view() =~= Seq::<Seq<char>>::empty());
        }
        Some(v)
    } else {
        proof {
            assert(toks.deep_view().skip(j as int)[0] == toks@[j as int]@);
            assert(toks.deep_view().skip(j as int).drop_first() =~= toks.deep_view().skip(j + 1));
        }
        match unesc_str(toks[j].as_str()) {
            None => None,
            Some(a) => match unesc_all_from(toks, j + 1) {
                None => None,
                Some(mut v) => {
                    let ghost prior = v.deep_view();
                    v.insert(0, a);
                    proof {
                        assert(v.deep_view() =~= seq![unesc(toks.deep_view()[j as int])->Some_0]
                            + prior);
                    }
                    Some(v)
                },
            },
        }
    }
}

/// One application read back from one line of the file.
fn parse_app_line(line: &str) -> (r: Option<AppConfig>)
    ensures
        match r {
            Some(a) => cut(line@, ' ') is Some && parse_app(cut(line@, ' ')->Some_0) == Some(a@),
            None => cut(line@, ' ') is None || parse_app(cut(line@, ' ')->Some_0) is None,
        },
{
    let toks = match cut_str(line, ' ') {
        None => {
            return None;
        },
        Some(t) => t,
    };
    let ghost tv = toks.deep_view();
    if toks.len() < 5 {
        return None;
    }
    proof {
        assert(tv[0] == toks@[0]@);
        assert(tv[1] == toks@[1]@);
        assert(tv[2] == toks@[2]@);
        assert(tv[3] == toks@[3]@);
        assert(tv[4] == toks@[4]@);
    }
    let name = match unesc_str(toks[0].as_str()) {
        None => {
            return None;
        },
        Some(x) => x,
    };
    let cmd = match unesc_str(toks[1].as_str()) {
        None => {
            return None;
        },
        Some(x) => x,
    };
    let cwd = match unesc_str(toks[2].as_str()) {
        None => {
            return None;
        },
        Some(x) => x,
    };
    let t3 = toks[3].as_str();
    let n3 = t3.unicode_len();
    let enabled: bool = if n3 == 1 {
        let c = t3.get_char(0);
        proof {
            assert(seq!['e'][0] == 'e');
            assert(seq!['e'].len() == 1);
            assert(seq!['d'][0] == 'd');
            assert(seq!['d'].len() == 1);
        }
        if c == 'e' {
            proof {
                assert(tv[3] =~= seq!['e']);
            }
            true
        } else if c == 'd' {
            proof {
                assert(tv[3] =~= seq!['d']);
            }
            false
        } else {
            proof {
                assert(parse_enabled(tv[3]) is None);
            }
            return None;
        }
    } else {
        proof {
            assert(seq!['e'].len() == 1);
            assert(seq!['d'].len() == 1);
            assert(parse_enabled(tv[3]) is None);
        }
        return None;
    };
    let t4 = toks[4].as_str();
    let n4 = t4.unicode_len();
    if n4 == 0 {
        return None;
    }
    let c4 = t4.get_char(0);
    let logdir: Option<String> = if c4 == 'n' {
        if n4 == 1 {
            None
        } else {
            proof {
                assert(parse_logdir(tv[4]) is None);
            }
            return None;
        }
    } else if c4 == 'l' {
        let rest = t4.substring_char(1, n4);
        proof {
            assert(rest@ =~= tv[4].drop_first());
        }
        match unesc_str(rest) {
            None => {
                return None;
            },
            Some(d) => Some(d),
        }
    } else {
        proof {
            assert(parse_logdir(tv[4]) is None);
        }
        return None;
    };
    let args = match unesc_all_from(&toks, 5) {
        None => {
            return None;
        },
        Some(v) => v,
    };
    let a = AppConfig { name, cmd, args, cwd, enabled, logdir };
    proof {
        assert(parse_enabled(tv[3]) == Some(a@.enabled));
        assert(parse_logdir(tv[4]) == Some(a@.logdir));
        assert(parse_app(tv) == Some(a@));
    }
    Some(a)
}

/// The applications read back from the lines of the file, from line `i` on.
fn parse_lines_from(lines: &Vec<String>, i: usize) -> (r: Option<Vec<AppConfig>>)
    requires
        i <= lines.len(),
    ensures
        match r {
            Some(v) => parse_lines(lines.deep_view().skip(i as int)) == Some(v.deep_view()),
            None => parse_lines(lines.deep_view().skip(i as int)) is None,
        },
    decreases lines.len() - i,
{
    if i == lines.len() {
        let v: Vec<AppConfig> = Vec::new();
        proof {
            assert(lines.deep_view().skip(i as int) =~= Seq::<Seq<char>>::empty());
            assert(v.deep_view() =~= Seq::<AppConfigView>::empty());
        }
        Some(v)
    } else {
        proof {
            assert(lines.deep_view().skip(i as int)[0] == lines@[i as int]@);
            assert(lines.deep_view().skip(i as int).drop_first() =~= lines.deep_view().skip(i + 1));
        }
        match parse_app_line(lines[i].as_str()) {
            None => None,
            Some(a) => match parse_lines_from(lines, i + 1) {
                None => None,
                Some(mut v) => {
                    let ghost prior = v.deep_view();
                    v.insert(0, a);
                    proof {
                        assert(v.deep_view() =~= seq![a@] + prior);
                    }
                    Some(v)
                },
            },
        }
    }
}

/// Whether no two applications of the vector share a name.
fn names_unique(apps: &Vec<AppConfig>) -> (r: bool)
    ensures
        r == unique_names(apps.deep_view()),
{
    let n = apps.len();
    for i in 0..n
        invariant
            n == apps.len(),
            forall|p: int, q: int|
                0 <= p < q < apps.deep_view().len() && p < i ==> apps.deep_view()[p].name
                    != apps.deep_view()[q].name,
    {
        for j in (i + 1)..n
            invariant
                i < n == apps.len(),
                forall|p: int, q: int|
                    0 <= p < q < apps.deep_view().len() && p < i ==> apps.deep_view()[p].name
                        != apps.deep_view()[q].name,
                forall|q: int|
                    i < q < j ==> apps.deep_view()[i as int].name != apps.deep_view()[q].name,
        {
            if apps[i].name == apps[j].name {
                proof {
                    assert(apps.deep_view()[i as int].name == apps.deep_view()[j as int].name);
                }
                return false;
            }
        }
    }
    true
}

impl Config {
    /// The path of the backing file, as it will be written.
    pub open spec fn spec_path(&self) -> Seq<char> {
        self.config_filepath@
    }

    /// An empty registry that will persist to the given path.
    pub fn new(config_filepath: String) -> (r: Config)
        ensures
            r@ == Seq::<AppConfigView>::empty(),
            r.spec_path() == config_filepath@,
    {
        let r = Config { apps: Vec::new(), config_filepath };
        proof {
            assert(r@ =~= Seq::<AppConfigView>::empty());
        }
        r
    }

    /// A fresh empty registry bound to the same path.
    pub fn default(&self) -> (r: Config)
        ensures
            r@ == Seq::<AppConfigView>::empty(),
            r.spec_path() == self.spec_path(),
    {
        let r = Config { apps: Vec::new(), config_filepath: self.config_filepath.clone() };
        proof {
            assert(r@ =~= Seq::<AppConfigView>::empty());
        }
        r
    }

    /// The path of the backing file.
    pub fn filepath(&self) -> (r: &String)
        ensures
            r@ == self.spec_path(),
    {
        &self.config_filepath
    }

    /// The position of the first application with this name.
    fn find_index(&self, name: &str) -> (r: Option<usize>)
        ensures
            match r {
                Some(i) => i < self@.len() && self@[i as int].name == name@ && (forall|j: int|
                    0 <= j < i ==> self@[j].name != name@),
                None => forall|j: int| 0 <= j < self@.len() ==> self@[j].name != name@,
            },
    {
        let want: String = name.to_owned();
        let n = self.apps.len();
        for i in 0..n
            invariant
                n == self.apps.len(),
                want@ == name@,
                forall|j: int| 0 <= j < i ==> self@[j].name != name@,
        {
            if self.apps[i].name == want {
                proof {
                    assert(self@[i as int].name == name@);
                }
                return Some(i);
            }
            proof {
                assert(self@[i as int].name != name@);
            }
        }
        None
    }

    /// A read accessor for the named application.
    pub fn find_config(&self, name: &str) -> (r: Option<&AppConfig>)
        ensures
            match r {
                Some(a) => has_app(self@, name@) && a@.name == name@ && (exists|i: int|
                    0 <= i < self@.len() && self@[i] == a@),
                None => !has_app(self@, name@),
            },
    {
        match self.find_index(name) {
            Some(i) => {
                let a = &self.apps[i];
                proof {
                    assert(a@ == self@[i as int]);
                }
                Some(a)
            },
            None => None,
        }
    }

    /// Replace-by-name or append. The caller persists the registry afterwards
    /// with `save`.
    pub fn add_config(&mut self, new_config: AppConfig)
        ensures
            final(self)@ == upsert_spec(old(self)@, new_config@),
            final(self).spec_path() == old(self).spec_path(),
    {
        let ghost av = new_config@;
        let ghost old_apps = self@;
        match self.find_index(new_config.name.as_str()) {
            Some(i) => {
                self.apps.set(i, new_config);
                proof {
                    lemma_upsert_update(old_apps, av, i as int);
                    assert(self@ =~= old_apps.update(i as int, av));
                }
            },
            None => {
                self.apps.push(new_config);
                proof {
                    lemma_upsert_absent(old_apps, av);
                    assert(self@ =~= old_apps.push(av));
                }
            },
        }
    }

    /// Set the enabled flag of the named application; a no-op when the name
    /// is unknown. The caller persists the registry afterwards with `save`.
    pub fn enable(&mut self, name: &str, enabled: bool)
        ensures
            final(self)@ == set_enabled_spec(old(self)@, name@, enabled),
            final(self).spec_path() == old(self).spec_path(),
    {
        let ghost old_apps = self@;
        match self.find_index(name) {
            Some(i) => {
                let prior = &self.apps[i];
                let updated = AppConfig {
                    name: prior.name.clone(),
                    cmd: prior.cmd.clone(),
                    args: prior.args.clone(),
                    cwd: prior.cwd.clone(),
                    enabled,
                    logdir: match &prior.logdir {
                        Some(d) => Some(d.clone()),
                        None => None,
                    },
                };
                proof {
                    assert(updated.args.deep_view() =~= old_apps[i as int].args);
                    assert(updated@ == (AppConfigView { enabled, ..old_apps[i as int] }));
                }
                self.apps.set(i, updated);
                proof {
                    lemma_set_enabled_update(old_apps, name@, enabled, i as int);
                    assert(self@ =~= old_apps.update(
                        i as int,
                        (AppConfigView { enabled, ..old_apps[i as int] }),
                    ));
                }
            },
            None => {
                proof {
                    lemma_set_enabled_absent(old_apps, name@, enabled);
                }
            },
        }
    }

    /// The text to be written to the backing file: the whole registry,
    /// serialized.
    pub fn save(&self) -> (r: String)
        ensures
            r@ == spec_encode(self@),
    {
        let mut out = String::new();
        let n = self.apps.len();
        proof {
            assert(self@.take(0) =~= Seq::<AppConfigView>::empty());
            assert(out@ =~= glue(enc_lines(self@.take(0)), '\n'));
        }
        for k in 0..n
            invariant
                n == self.apps.len(),
                out@ == glue(enc_lines(self@.take(k as int)), '\n'),
        {
            let line = encode_app_line(&self.apps[k]);
            out.append(line.as_str());
            push_char(&mut out, '\n');
            proof {
                assert(self.apps@[k as int]@ == self@[k as int]);
                lemma_glue_push(enc_lines(self@.take(k as int)), app_line(self@[k as int]), '\n');
                lemma_enc_lines_push(self@.take(k as int), self@[k as int]);
                assert(self@.take(k + 1) =~= self@.take(k as int).push(self@[k as int]));
                assert(out@ =~= glue(enc_lines(self@.take(k + 1)), '\n'));
            }
        }
        proof {
            assert(self@.take(n as int) =~= self@);
        }
        out
    }

    /// Replace the registry with what the backing file holds: an absent file
    /// is an empty registry; malformed text is refused and the registry is
    /// left unmodified.
    pub fn load(&mut self, content: Option<&str>) -> (r: Result<(), ConfigParseError>)
        ensures
            final(self).spec_path() == old(self).spec_path(),
            match content {
                None => r is Ok && final(self)@ == Seq::<AppConfigView>::empty(),
                Some(s) => match spec_decode(s@) {
                    Some(apps) => r is Ok && final(self)@ == apps,
                    None => r is Err && final(self)@ == old(self)@,
                },
            },
    {
        match content {
            None => {
                self.apps = Vec::new();
                proof {
                    assert(self@ =~= Seq::<AppConfigView>::empty());
                }
                Ok(())
            },
            Some(s) => {
                let lines = match cut_str(s, '\n') {
                    None => {
                        return Err(ConfigParseError);
                    },
                    Some(l) => l,
                };
                proof {
                    assert(lines.deep_view().skip(0) =~= lines.deep_view());
                }
                let apps = match parse_lines_from(&lines, 0) {
                    None => {
                        return Err(ConfigParseError);
                    },
                    Some(v) => v,
                };
                if names_unique(&apps) {
                    self.apps = apps;
                    Ok(())
                } else {
                    Err(ConfigParseError)
                }
            },
        }
    }
}

} // verus!
