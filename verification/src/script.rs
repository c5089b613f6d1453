//! The scripting side: the rhai engine and scope the front end runs its
//! view scripts in, the programs it hands them, and how it reads their
//! answers.
use vstd::prelude::*;
use crate::strmap::{StrMap, Pairs, map_of, pairs_insert};
use crate::text::{chars_of, string_of, push_all, split, split_on, trim, trimmed, same, utf8_len};
use crate::settings::{settings_map, renders};
use crate::xproto::{Drawable, XRequest, NONE};
use crate::visual::{cuttable, cut};
use crate::numbers::{parse_bool, parse_i64, bool_text, signed_digits};
use crate::layout::wrap16;
use crate::visual::{Visual, VisualView, Glyphs, view_wf, content_fit, content_requests, show_requests, hide_requests, tag_choices, key_id};
use crate::style::{Style, style_apply};
use crate::display::Xcb;
use crate::player::Player;
use crate::layer::Layer;
use crate::visual::{search, by_selector, node_at, replace_at, lemma_search_valid, lemma_replace_twice, lemma_replace_wf, valid_path};

verus! {

// ---------------------------------------------------------------------------
// The rhai engine and scope
// ---------------------------------------------------------------------------

#[verifier::external_type_specification]
#[verifier::external_body]
pub struct ExEngine(rhai::Engine);

#[verifier::external_type_specification]
#[verifier::external_body]
pub struct ExScope<'a>(rhai::Scope<'a>);

/// Whether the variable `name` of a scope is a constant (`Some(true)`), a
/// variable (`Some(false)`), or absent: what `rhai::Scope::is_constant`
/// returns.
pub uninterp spec fn scope_constness(s: rhai::Scope<'static>, name: Seq<char>) -> Option<bool>;

/// The newest variable `name` of a scope when it holds a boolean: what
/// `rhai::Scope::get_value::<bool>` returns.
pub uninterp spec fn scope_bool(s: rhai::Scope<'static>, name: Seq<char>) -> Option<bool>;

/// The newest variable `name` of a scope when it holds an integer: what
/// `rhai::Scope::get_value::<i64>` returns.
pub uninterp spec fn scope_int(s: rhai::Scope<'static>, name: Seq<char>) -> Option<i64>;

/// The newest variable `name` of a scope when it holds a string: what
/// `rhai::Scope::get_value::<String>` returns.
pub uninterp spec fn scope_text(s: rhai::Scope<'static>, name: Seq<char>) -> Option<Seq<char>>;

/// What a scope holds under `name` is the same in `a` and `b`.
pub open spec fn same_var(a: rhai::Scope<'static>, b: rhai::Scope<'static>, name: Seq<char>) -> bool {
    &&& scope_constness(a, name) == scope_constness(b, name)
    &&& scope_bool(a, name) == scope_bool(b, name)
    &&& scope_int(a, name) == scope_int(b, name)
    &&& scope_text(a, name) == scope_text(b, name)
}

/// `rhai::Engine::new`: an engine with the standard packages. Nothing is
/// stated of it.
#[verifier::external_body]
fn engine_new() -> rhai::Engine {
    rhai::Engine::new()
}

/// `rhai::Engine::eval::<String>`: the value of `script` when it evaluates
/// to a string, else nothing. Nothing is stated of the value: scripts may
/// read the clock or random numbers.
#[verifier::external_body]
fn engine_eval(engine: &rhai::Engine, script: &str) -> Option<String> {
    match engine.eval::<String>(script) {
        Ok(s) => Some(s),
        Err(_) => None,
    }
}

/// `rhai::Engine::eval_with_scope::<String>`: as `engine_eval`, with the
/// variables of `scope`, which the script may change. Nothing is stated of
/// the value or of the scope afterwards.
#[verifier::external_body]
fn engine_eval_in(engine: &rhai::Engine, scope: &mut rhai::Scope<'static>, script: &str) -> Option<String> {
    match engine.eval_with_scope::<String>(scope, script) {
        Ok(s) => Some(s),
        Err(_) => None,
    }
}

/// `rhai::Engine::run_with_scope`: whether `script` ran without error with
/// the variables of `scope`, which it may change. Nothing is stated of the
/// scope afterwards.
#[verifier::external_body]
fn engine_run_in(engine: &rhai::Engine, scope: &mut rhai::Scope<'static>, script: &str) -> bool {
    match engine.run_with_scope(scope, script) {
        Ok(()) => true,
        Err(_) => false,
    }
}

/// `rhai::Scope::new`: a scope without variables.
#[verifier::external_body]
fn scope_new() -> (s: rhai::Scope<'static>)
    ensures
        forall|name: Seq<char>| #[trigger] scope_constness(s, name) is None,
        forall|name: Seq<char>| #[trigger] scope_bool(s, name) is None,
        forall|name: Seq<char>| #[trigger] scope_int(s, name) is None,
        forall|name: Seq<char>| #[trigger] scope_text(s, name) is None,
{
    rhai::Scope::new()
}

/// `rhai::Scope::is_constant`.
#[verifier::external_body]
fn scope_is_constant(s: &rhai::Scope<'static>, name: &str) -> (r: Option<bool>)
    ensures
        r == scope_constness(*s, name@),
{
    s.is_constant(name)
}

/// `rhai::Scope::get_value::<bool>`: the newest variable `name` if it
/// holds a boolean.
#[verifier::external_body]
fn scope_get_bool(s: &rhai::Scope<'static>, name: &str) -> (r: Option<bool>)
    ensures
        r == scope_bool(*s, name@),
{
    s.get_value::<bool>(name)
}

/// `rhai::Scope::get_value::<i64>`: the newest variable `name` if it holds
/// an integer.
#[verifier::external_body]
fn scope_get_int(s: &rhai::Scope<'static>, name: &str) -> (r: Option<i64>)
    ensures
        r == scope_int(*s, name@),
{
    s.get_value::<i64>(name)
}

/// `rhai::Scope::get_value::<String>`: the newest variable `name` if it
/// holds a string.
#[verifier::external_body]
fn scope_get_text(s: &rhai::Scope<'static>, name: &str) -> (r: Option<String>)
    ensures
        match r {
            Some(t) => scope_text(*s, name@) == Some(t@),
            None => scope_text(*s, name@) is None,
        },
{
    s.get_value::<String>(name)
}

/// `rhai::Scope::set_value` of a boolean (which panics on a constant):
/// `name` stays or becomes a variable holding `value`, the newest of that
/// name; no other name changes.
#[verifier::external_body]
fn scope_set_bool(s: &mut rhai::Scope<'static>, name: &str, value: bool)
    requires
        scope_constness(*old(s), name@) != Some(true),
    ensures
        scope_constness(*final(s), name@) == Some(false),
        scope_bool(*final(s), name@) == Some(value),
        scope_int(*final(s), name@) is None,
        scope_text(*final(s), name@) is None,
        forall|other: Seq<char>| other != name@ ==> #[trigger] same_var(*final(s), *old(s), other),
{
    s.set_value(name.to_string(), value);
}

/// `rhai::Scope::set_value` of an integer (which panics on a constant):
/// `name` stays or becomes a variable holding `value`, the newest of that
/// name; no other name changes.
#[verifier::external_body]
fn scope_set_int(s: &mut rhai::Scope<'static>, name: &str, value: i64)
    requires
        scope_constness(*old(s), name@) != Some(true),
    ensures
        scope_constness(*final(s), name@) == Some(false),
        scope_bool(*final(s), name@) is None,
        scope_int(*final(s), name@) == Some(value),
        scope_text(*final(s), name@) is None,
        forall|other: Seq<char>| other != name@ ==> #[trigger] same_var(*final(s), *old(s), other),
{
    s.set_value(name.to_string(), value);
}

/// `rhai::Scope::set_value` of a string (which panics on a constant):
/// `name` stays or becomes a variable holding `value`, the newest of that
/// name; no other name changes.
#[verifier::external_body]
fn scope_set_text(s: &mut rhai::Scope<'static>, name: &str, value: &str)
    requires
        scope_constness(*old(s), name@) != Some(true),
    ensures
        scope_constness(*final(s), name@) == Some(false),
        scope_bool(*final(s), name@) is None,
        scope_int(*final(s), name@) is None,
        scope_text(*final(s), name@) == Some(value@),
        forall|other: Seq<char>| other != name@ ==> #[trigger] same_var(*final(s), *old(s), other),
{
    s.set_value(name.to_string(), value.to_string());
}

// ---------------------------------------------------------------------------
// Programs
// ---------------------------------------------------------------------------

/// The program a script runs as: the common script, a line break, and the
/// script trimmed.
pub open spec fn program_text(common: Seq<char>, script: Seq<char>) -> Seq<char> {
    common + seq!['\n'] + trim(script)
}

/// The program a script runs as (see `program_text`).
pub fn program(common: &str, script: &str) -> (r: String)
    ensures
        r@ == program_text(common@, script@),
{
    let mut t = chars_of(common);
    t.push('\n');
    push_all(&mut t, &trimmed(&chars_of(script)));
    string_of(&t)
}

/// A script engine of the first front end.
pub struct Lrhai {
    pub engine: rhai::Engine,
}

impl Lrhai {
    /// An engine with the standard packages.
    pub fn new() -> Lrhai {
        Lrhai { engine: engine_new() }
    }

    /// The string `script` evaluates to; nothing where it fails or gives no
    /// string.
    pub fn exec(&self, script: &str) -> Option<String> {
        engine_eval(&self.engine, script)
    }
}

/// `-nsfw`, the option that opens the restricted folder.
pub open spec fn nsfw_flag() -> Seq<char> {
    seq!['-', 'n', 's', 'f', 'w']
}

/// The front end's script host: the media root, whether restricted media
/// may be shown, and the scope its scripts share.
pub struct Rhai {
    pub base: String,
    pub allow_nsfw: bool,
    pub scope: rhai::Scope<'static>,
}

/// The call that starts the front end: `startup(<nsfw>,"<base>",false);`.
pub open spec fn startup_text(allow_nsfw: bool, base: Seq<char>) -> Seq<char> {
    "startup("@ + crate::numbers::bool_text(allow_nsfw) + ",\""@ + base + "\",false);"@
}

impl Rhai {
    /// The host for the command line `args` (program name, media root,
    /// options): restricted media only with `-nsfw`.
    pub fn new(args: &Vec<String>) -> (r: Rhai)
        requires
            args@.len() >= 2,
        ensures
            r.base@ == args@[1]@,
            r.allow_nsfw == exists|i: int| 0 <= i < args@.len() && #[trigger] args@[i]@ == nsfw_flag(),
            forall|name: Seq<char>| #[trigger] scope_constness(r.scope, name) is None,
    {
        let base = string_of(&chars_of(args[1].as_str()));
        let flag = vec!['-', 'n', 's', 'f', 'w'];
        assert(flag@ =~= nsfw_flag());
        let mut allow_nsfw = false;
        let mut i: usize = 0;
        while i < args.len()
            invariant
                i <= args@.len(),
                flag@ == nsfw_flag(),
                allow_nsfw == exists|j: int| 0 <= j < i && #[trigger] args@[j]@ == nsfw_flag(),
            decreases args.len() - i,
        {
            if same(&chars_of(args[i].as_str()), &flag) {
                allow_nsfw = true;
            }
            i += 1;
        }
        Rhai { base, allow_nsfw, scope: scope_new() }
    }

    /// The call that starts the front end (see `startup_text`).
    pub fn startup_call(&self) -> (r: String)
        ensures
            r@ == startup_text(self.allow_nsfw, self.base@),
    {
        let mut t = chars_of("startup(");
        push_all(&mut t, &crate::numbers::print_bool(self.allow_nsfw));
        push_all(&mut t, &chars_of(",\""));
        push_all(&mut t, &chars_of(self.base.as_str()));
        push_all(&mut t, &chars_of("\",false);"));
        string_of(&t)
    }

    /// Starts the front end: runs the startup call (see `exec`).
    pub fn run(&mut self, engine: &rhai::Engine, common: &str) -> (ran: bool)
        ensures
            final(self).base == old(self).base,
            final(self).allow_nsfw == old(self).allow_nsfw,
    {
        let call = self.startup_call();
        self.exec(engine, common, call.as_str())
    }

    /// Runs `script` after the common script `common` (see `program_text`)
    /// in this host's scope; whether it ran without error.
    pub fn exec(&mut self, engine: &rhai::Engine, common: &str, script: &str) -> (ran: bool)
        ensures
            final(self).base == old(self).base,
            final(self).allow_nsfw == old(self).allow_nsfw,
    {
        let text = program(common, script);
        engine_run_in(engine, &mut self.scope, text.as_str())
    }
}

// ---------------------------------------------------------------------------
// Answers of scripts
// ---------------------------------------------------------------------------

/// The pairs of a script's answer from line `i` on, added to `m`: lines
/// taken two by two as key and value (a last odd line is dropped), skipping
/// empty keys and `?` values; a later key wins.
pub open spec fn answer_from(lines: Seq<Seq<char>>, i: int, m: Map<Seq<char>, Seq<char>>) -> Map<Seq<char>, Seq<char>>
    decreases lines.len() - i,
{
    if i < 0 || i + 1 >= lines.len() {
        m
    } else {
        answer_from(
            lines,
            i + 2,
            if lines[i].len() > 0 && lines[i + 1] != seq!['?'] {
                m.insert(lines[i], lines[i + 1])
            } else {
                m
            },
        )
    }
}

/// The pairs a script's answer `rs` holds (see `answer_from`).
pub open spec fn answer(rs: Seq<char>) -> Map<Seq<char>, Seq<char>> {
    answer_from(split(rs, '\n'), 0, Map::empty())
}

/// Reads a script's answer (see `answer`).
pub fn parse_answer(rs: &str) -> (m: StrMap)
    ensures
        m.wf(),
        m.map() == answer(rs@),
{
    let lines = split_on(&chars_of(rs), '\n');
    let ghost ls = split(rs@, '\n');
    let mut m = StrMap::new();
    let mut i: usize = 0;
    let q = vec!['?'];
    assert(q@ =~= seq!['?']);
    assert(m.map() =~= Map::<Seq<char>, Seq<char>>::empty());
    while lines.len() - i > 1
        invariant
            lines.deep_view() == ls,
            ls == split(rs@, '\n'),
            q@ == seq!['?'],
            i <= lines.len(),
            m.wf(),
            answer_from(ls, i as int, m.map()) == answer(rs@),
        decreases lines.len() + 2 - i,
    {
        assert(lines.deep_view()[i as int] == lines@[i as int]@);
        assert(lines.deep_view()[i + 1] == lines@[i + 1]@);
        if lines[i].len() > 0 && !same(&lines[i + 1], &q) {
            m.insert(&lines[i], &lines[i + 1]);
        }
        i += 2;
    }
    m
}

// ---------------------------------------------------------------------------
// The application object the scripts drive
// ---------------------------------------------------------------------------

/// A layer the scripts asked for: its name and view file.
pub struct DomLayer {
    pub name: String,
    pub file: String,
}

/// An element of a layer, by selector.
pub struct DomElem {
    pub layer: String,
    pub sel: String,
}

/// The application the scripts build: its layers in order, its window and
/// drawables, back buffer, size and media root.
pub struct DomApp {
    pub layers: Vec<(String, DomLayer)>,
    pub window: u32,
    pub drw: Drawable,
    pub drb: Drawable,
    pub back_buffer: u32,
    pub width: u16,
    pub height: u16,
    pub base: String,
}

impl DomLayer {
    /// The layer `name` of the view file `file`.
    pub fn new(name: String, file: String) -> (r: DomLayer)
        ensures
            r.name == name,
            r.file == file,
    {
        DomLayer { name, file }
    }
}

impl DomApp {
    /// An application without layers or window, of size 1x1, for the media
    /// root `base`.
    pub fn new(base: String) -> (r: DomApp)
        ensures
            r.layers@.len() == 0,
            r.window == NONE,
            r.drw == Drawable::Empty,
            r.drb == Drawable::Empty,
            r.back_buffer == NONE,
            r.width == 1,
            r.height == 1,
            r.base == base,
    {
        DomApp {
            layers: Vec::new(),
            window: NONE,
            drw: Drawable::Empty,
            drb: Drawable::Empty,
            back_buffer: NONE,
            width: 1,
            height: 1,
            base,
        }
    }

    /// Adds the layer `name` of the view file `file` after the others.
    pub fn load_layer(&mut self, name: String, file: String)
        ensures
            final(self).layers@.len() == old(self).layers@.len() + 1,
            forall|i: int| 0 <= i < old(self).layers@.len() ==> #[trigger] final(self).layers@[i] == old(self).layers@[i],
            final(self).layers@.last().0@ == name@,
            final(self).layers@.last().1.name@ == name@,
            final(self).layers@.last().1.file == file,
            final(self).window == old(self).window,
            final(self).drw == old(self).drw,
            final(self).drb == old(self).drb,
            final(self).back_buffer == old(self).back_buffer,
            final(self).width == old(self).width,
            final(self).height == old(self).height,
            final(self).base == old(self).base,
    {
        let n2 = string_of(&chars_of(name.as_str()));
        self.layers.push((n2, DomLayer::new(name, file)));
    }

    /// The settings stored in the text `content` of a settings file.
    pub fn settings_all(content: &str) -> (m: StrMap)
        ensures
            m.wf(),
            m.map() == settings_map(content@),
    {
        crate::settings::parse_settings(content)
    }

    /// The setting `name` of the settings text `content`, or `default`.
    pub fn setting_get(name: &str, content: &str, default: &str) -> (r: String)
        ensures
            r@ == (if settings_map(content@).dom().contains(name@) {
                settings_map(content@)[name@]
            } else {
                default@
            }),
    {
        crate::settings::lookup(content, name, default)
    }

    /// The settings text after `name` is set to `value`: it holds exactly
    /// the settings of `content` with that change.
    pub fn setting_set(name: &str, value: &str, content: &str) -> (t: String)
        ensures
            renders(t@, settings_map(content@).insert(name@, value@)),
    {
        crate::settings::store(content, name, value)
    }
}

// ---------------------------------------------------------------------------
// The program an evaluation runs
// ---------------------------------------------------------------------------

/// The bytes `a..b` of the UTF-8 text `s`.
pub open spec fn byte_range(s: Seq<char>, a: nat, b: nat) -> Seq<char> {
    cut(s, b).skip(cut(s, a).len() as int)
}

/// The part of a script an evaluation runs: the script trimmed, or, for a
/// `??=` script, its bytes from the fourth to two before the end of the
/// trimmed text; nothing where those bytes do not fall on character
/// boundaries.
pub open spec fn eval_body(script: Seq<char>) -> Option<Seq<char>> {
    let t = trim(script);
    if t.len() >= 3 && t.take(3) == seq!['?', '?', '='] {
        if utf8_len(t) >= 5 && cuttable(script, 3) && cuttable(script, (utf8_len(t) - 2) as nat) {
            Some(byte_range(script, 3, (utf8_len(t) - 2) as nat))
        } else {
            None
        }
    } else {
        Some(t)
    }
}

/// The part of a script an evaluation runs (see `eval_body`).
pub fn body_of(script: &str) -> (r: Option<Vec<char>>)
    ensures
        match r {
            Some(b) => eval_body(script@) == Some(b@),
            None => eval_body(script@) is None,
        },
{
    let sc = chars_of(script);
    let t = trimmed(&sc);
    if t.len() >= 3 && t[0] == '?' && t[1] == '?' && t[2] == '=' {
        assert(t@.take(3) =~= seq!['?', '?', '=']);
        if !crate::text::utf8_longer(&t, 4) {
            return None;
        }
        let e = crate::text::utf8_bytes(&t) - 2;
        let a = match crate::text::prefix_cut(&sc, 3) {
            Some(k) => k,
            None => {
                return None;
            },
        };
        let b = match crate::text::prefix_cut(&sc, e) {
            Some(k) => k,
            None => {
                return None;
            },
        };
        proof {
            crate::visual::lemma_cut_is(sc@, 3, a as int);
            crate::visual::lemma_cut_is(sc@, e as nat, b as int);
        }
        if a > b {
            proof {
                crate::text::lemma_utf8_len_take_grows(sc@, b as int, a as int);
            }
            return None;
        }
        let r = crate::text::slice_of(&sc, a, b);
        assert(r@ =~= byte_range(script@, 3, e as nat));
        Some(r)
    } else {
        if t.len() >= 3 {
            assert(t@.take(3) != seq!['?', '?', '='] ==> !(t@[0] == '?' && t@[1] == '?' && t@[2] == '='));
        }
        Some(t)
    }
}

/// The line that reports global `act` with value text `nv`:
/// `eve = result(eve,"<act>",<nv>);`.
pub open spec fn result_line(act: Seq<char>, nv: Seq<char>) -> Seq<char> {
    "eve = result(eve,\""@ + act + "\","@ + nv + ");"@
}

/// The line that reports a change of global `act`:
/// `eve = on_event(eve,"globals.<act>","change",0,0,0);`.
pub open spec fn change_line(act: Seq<char>) -> Seq<char> {
    "eve = on_event(eve,\"globals."@ + act + "\",\"change\",0,0,0);"@
}

/// `s` in double quotes.
pub open spec fn quoted(s: Seq<char>) -> Seq<char> {
    seq!['"'] + s + seq!['"']
}

/// `is_`.
pub open spec fn is_prefix() -> Seq<char> {
    seq!['i', 's', '_']
}

/// `play_idx`.
pub open spec fn play_idx() -> Seq<char> {
    seq!['p', 'l', 'a', 'y', '_', 'i', 'd', 'x']
}

/// A global can be reported: its name's first three bytes are whole
/// characters, an `is_` global holds `!` or a boolean, `play_idx` an
/// integer.
pub open spec fn global_ok(act: Seq<char>, v: Seq<char>) -> bool {
    &&& cuttable(act, 3)
    &&& cut(act, 3) == is_prefix() ==> v == seq!['!'] || parse_bool(v) is Some
    &&& cut(act, 3) != is_prefix() && act == play_idx() ==> parse_i64(v) is Some
}

/// Every global with a name can be reported (see `global_ok`).
pub open spec fn globals_ok(ps: Pairs) -> bool {
    forall|i: int| 0 <= i < ps.len() && (#[trigger] ps[i]).0.len() > 0 ==> global_ok(ps[i].0, ps[i].1)
}

/// Whether global `act` = `v` can be reported (see `global_ok`).
fn global_readable(act: &Vec<char>, v: &Vec<char>) -> (ok: bool)
    ensures
        ok == global_ok(act@, v@),
{
    let k3 = match crate::text::prefix_cut(act, 3) {
        Some(k) => k,
        None => {
            return false;
        },
    };
    proof {
        crate::visual::lemma_cut_is(act@, 3, k3 as int);
    }
    let head = crate::text::slice_of(act, 0, k3);
    assert(head@ =~= cut(act@, 3));
    let isp = vec!['i', 's', '_'];
    assert(isp@ =~= is_prefix());
    let pidx = vec!['p', 'l', 'a', 'y', '_', 'i', 'd', 'x'];
    assert(pidx@ =~= play_idx());
    if same(&head, &isp) {
        if v.len() == 1 && v[0] == '!' {
            assert(v@ =~= seq!['!']);
            true
        } else {
            if v.len() == 1 {
                assert(v@ != seq!['!'] ==> v@[0] != '!');
            }
            crate::numbers::parse_boolean(v).is_some()
        }
    } else if same(act, &pidx) {
        crate::numbers::parse_int(v).is_some()
    } else {
        true
    }
}

fn lit(s: &str) -> (r: Vec<char>)
    ensures
        r@ == s@,
{
    chars_of(s)
}

/// The value an `is_` global stands for: the opposite of the scope's
/// boolean `cur` (true where it has none) for `!`, else the boolean `v` names.
pub open spec fn flag_value(v: Seq<char>, cur: Option<bool>) -> bool {
    if v == seq!['!'] {
        match cur {
            Some(b) => !b,
            None => true,
        }
    } else {
        parse_bool(v)->0
    }
}

/// `o` holds the integer `n`.
pub open spec fn int_is(o: Option<i64>, n: int) -> bool {
    match o {
        Some(c) => c == n,
        None => false,
    }
}

/// What reporting global `act` = `v` does, given scope `s`: the line that
/// reports it and whether the scope variable `act` changes (an `is_` global
/// is a boolean, `play_idx` an integer, any other a string); nothing where
/// the global cannot be reported or a constant would have to change.
pub open spec fn global_step(act: Seq<char>, v: Seq<char>, s: rhai::Scope<'static>) -> Option<(Seq<char>, bool)> {
    if !global_ok(act, v) {
        None
    } else {
        let (line, differs) = if cut(act, 3) == is_prefix() {
            let nv = flag_value(v, scope_bool(s, act));
            (result_line(act, bool_text(nv)), scope_bool(s, act) != Some(nv))
        } else if act == play_idx() {
            let nv = parse_i64(v)->0;
            (result_line(act, signed_digits(nv)), !int_is(scope_int(s, act), nv))
        } else {
            (result_line(act, quoted(v)), scope_text(s, act) != Some(v))
        };
        if differs && scope_constness(s, act) == Some(true) {
            None
        } else {
            Some((line, differs))
        }
    }
}

/// Scope `t` holds under `act` what reporting global `act` = `v` over scope
/// `s` stores there.
pub open spec fn holds_global(t: rhai::Scope<'static>, act: Seq<char>, v: Seq<char>, s: rhai::Scope<'static>) -> bool {
    &&& scope_constness(t, act) == Some(false)
    &&& if cut(act, 3) == is_prefix() {
        scope_bool(t, act) == Some(flag_value(v, scope_bool(s, act))) && scope_int(t, act) is None && scope_text(t, act)
            is None
    } else if act == play_idx() {
        scope_bool(t, act) is None && int_is(scope_int(t, act), parse_i64(v)->0) && scope_text(t, act) is None
    } else {
        scope_bool(t, act) is None && scope_int(t, act) is None && scope_text(t, act) == Some(v)
    }
}

/// The report and change lines for global `act` = `v` (see `global_step`),
/// storing the global in the scope variable `act` when it differs.
fn global_lines(act: &Vec<char>, v: &Vec<char>, scope: &mut rhai::Scope<'static>) -> (r: Option<(Vec<char>, Vec<char>)>)
    requires
        act@.len() > 0,
    ensures
        r is Some <==> global_step(act@, v@, *old(scope)) is Some,
        match (r, global_step(act@, v@, *old(scope))) {
            (Some(l), Some((line, d))) => l.0@ == line && l.1@ == (if d {
                change_line(act@)
            } else {
                Seq::empty()
            }) && (d ==> holds_global(*final(scope), act@, v@, *old(scope))) && (!d ==> same_var(
                *final(scope),
                *old(scope),
                act@,
            )),
            _ => same_var(*final(scope), *old(scope), act@),
        },
        forall|other: Seq<char>| other != act@ ==> #[trigger] same_var(*final(scope), *old(scope), other),
{
    let k3 = match crate::text::prefix_cut(act, 3) {
        Some(k) => k,
        None => {
            return None;
        },
    };
    proof {
        crate::visual::lemma_cut_is(act@, 3, k3 as int);
    }
    let head = crate::text::slice_of(act, 0, k3);
    assert(head@ =~= cut(act@, 3));
    let name = string_of(act);
    let isp = vec!['i', 's', '_'];
    assert(isp@ =~= is_prefix());
    let pidx = vec!['p', 'l', 'a', 'y', '_', 'i', 'd', 'x'];
    assert(pidx@ =~= play_idx());
    let mut run = lit("eve = result(eve,\"");
    push_all(&mut run, act);
    push_all(&mut run, &lit("\","));
    let mut chg = lit("eve = on_event(eve,\"globals.");
    push_all(&mut chg, act);
    push_all(&mut chg, &lit("\",\"change\",0,0,0);"));
    assert(chg@ =~= change_line(act@));
    let none: Vec<char> = Vec::new();
    assert(none@ =~= Seq::<char>::empty());
    if same(&head, &isp) {
        let nv = if v.len() == 1 && v[0] == '!' {
            assert(v@ =~= seq!['!']);
            match scope_get_bool(scope, name.as_str()) {
                Some(b) => !b,
                None => true,
            }
        } else {
            if v.len() == 1 {
                assert(v@ != seq!['!'] ==> v@[0] != '!');
            }
            match crate::numbers::parse_boolean(v) {
                Some(b) => b,
                None => {
                    return None;
                },
            }
        };
        push_all(&mut run, &crate::numbers::print_bool(nv));
        push_all(&mut run, &lit(");"));
        assert(run@ =~= result_line(act@, bool_text(nv)));
        let cur = scope_get_bool(scope, name.as_str());
        let differs = match cur {
            Some(c) => c != nv,
            None => true,
        };
        if differs {
            if scope_is_constant(scope, name.as_str()) == Some(true) {
                return None;
            }
            scope_set_bool(scope, name.as_str(), nv);
            return Some((run, chg));
        }
        return Some((run, none));
    }
    if same(act, &pidx) {
        let nv = match crate::numbers::parse_int(v) {
            Some(n) => n,
            None => {
                return None;
            },
        };
        push_all(&mut run, &crate::numbers::print_int(nv));
        push_all(&mut run, &lit(");"));
        assert(run@ =~= result_line(act@, signed_digits(parse_i64(v@)->0)));
        let cur = scope_get_int(scope, name.as_str());
        let differs = match cur {
            Some(c) => c != nv,
            None => true,
        };
        if differs {
            if scope_is_constant(scope, name.as_str()) == Some(true) {
                return None;
            }
            scope_set_int(scope, name.as_str(), nv);
            return Some((run, chg));
        }
        return Some((run, none));
    }
    run.push('"');
    push_all(&mut run, v);
    run.push('"');
    push_all(&mut run, &lit(");"));
    assert(run@ =~= result_line(act@, quoted(v@)));
    let cur = scope_get_text(scope, name.as_str());
    let differs = match cur {
        Some(c) => !same(&chars_of(c.as_str()), v),
        None => true,
    };
    if differs {
        if scope_is_constant(scope, name.as_str()) == Some(true) {
            return None;
        }
        let value = string_of(v);
        scope_set_text(scope, name.as_str(), value.as_str());
        return Some((run, chg));
    }
    Some((run, none))
}

/// The report and change lines of the globals `ps` (those with a name), in
/// order, each read against scope `s` (see `global_step`); nothing where one
/// cannot be reported.
pub open spec fn eval_lines(ps: Pairs, s: rhai::Scope<'static>) -> Option<(Seq<char>, Seq<char>)>
    decreases ps.len(),
{
    if ps.len() == 0 {
        Some((Seq::empty(), Seq::empty()))
    } else {
        match eval_lines(ps.drop_last(), s) {
            None => None,
            Some((a, b)) => {
                let k = ps.last().0;
                if k.len() == 0 {
                    Some((a, b))
                } else {
                    match global_step(k, ps.last().1, s) {
                        None => None,
                        Some((l, d)) => Some(
                            (
                                a + l,
                                b + if d {
                                    change_line(k)
                                } else {
                                    Seq::empty()
                                },
                            ),
                        ),
                    }
                }
            },
        }
    }
}

proof fn lemma_eval_lines_none(ps: Pairs, i: int, s: rhai::Scope<'static>)
    requires
        0 <= i <= ps.len(),
        eval_lines(ps.take(i), s) is None,
    ensures
        eval_lines(ps, s) is None,
    decreases ps.len() - i,
{
    if i < ps.len() {
        assert(ps.take(i + 1).drop_last() =~= ps.take(i));
        lemma_eval_lines_none(ps, i + 1, s);
    } else {
        assert(ps.take(i) =~= ps);
    }
}

/// The last line of an evaluation: the body's value becomes `eve`, if it
/// has one, and the result is completed.
pub open spec fn finish_line(body: Seq<char>) -> Seq<char> {
    if body.len() > 0 {
        "eve = "@ + body + ";return result_complete(eve);"@
    } else {
        "return result_complete(eve);"@
    }
}

/// The program that evaluates body `body` with globals `ps` over scope `s`
/// after the common script: the common script, `;`, the start of the result,
/// the report lines, the change lines and the finishing line.
pub open spec fn eval_text(common: Seq<char>, ps: Pairs, s: rhai::Scope<'static>, body: Seq<char>) -> Option<Seq<char>> {
    match eval_lines(ps, s) {
        None => None,
        Some((a, b)) => Some(common + seq![';'] + "let eve = result_init(curlib,base);"@ + a + b + finish_line(body)),
    }
}

/// Scope `t` holds under `k` what reporting global `k` = `v` over scope `s`
/// leaves there.
pub open spec fn stored(t: rhai::Scope<'static>, k: Seq<char>, v: Seq<char>, s: rhai::Scope<'static>) -> bool {
    match global_step(k, v, s) {
        Some((_, true)) => holds_global(t, k, v, s),
        _ => same_var(t, s, k),
    }
}

proof fn lemma_stored_keeps(t1: rhai::Scope<'static>, t2: rhai::Scope<'static>, k: Seq<char>, v: Seq<char>, s: rhai::Scope<'static>)
    requires
        stored(t1, k, v, s),
        same_var(t2, t1, k),
    ensures
        stored(t2, k, v, s),
{
}

/// Once a global is stored, reporting it again over the new scope gives the
/// same line and no change, unless it toggles (`!`).
proof fn lemma_step_quiet(t: rhai::Scope<'static>, k: Seq<char>, v: Seq<char>, s: rhai::Scope<'static>)
    requires
        stored(t, k, v, s),
        global_step(k, v, s) is Some,
        v != seq!['!'],
    ensures
        match global_step(k, v, s) {
            Some((line, _)) => global_step(k, v, t) == Some((line, false)),
            None => false,
        },
{
}

/// Reporting the same globals a second time, over the scope the first
/// report left, raises no change event and reports the same values, where
/// no global toggles (`!`).
pub proof fn law_report_twice_quiet(ps: Pairs, s: rhai::Scope<'static>, t: rhai::Scope<'static>)
    requires
        eval_lines(ps, s) is Some,
        forall|i: int| 0 <= i < ps.len() && ps[i].0.len() > 0 ==> #[trigger] stored(t, ps[i].0, ps[i].1, s),
        forall|i: int| 0 <= i < ps.len() ==> (#[trigger] ps[i]).1 != seq!['!'],
    ensures
        match eval_lines(ps, s) {
            Some((a, _)) => eval_lines(ps, t) == Some((a, Seq::<char>::empty())),
            None => false,
        },
    decreases ps.len(),
{
    if ps.len() > 0 {
        let q = ps.drop_last();
        assert forall|i: int| 0 <= i < q.len() && q[i].0.len() > 0 implies #[trigger] stored(t, q[i].0, q[i].1, s) by {
            assert(q[i] == ps[i]);
        }
        assert forall|i: int| 0 <= i < q.len() implies (#[trigger] q[i]).1 != seq!['!'] by {
            assert(q[i] == ps[i]);
        }
        law_report_twice_quiet(q, s, t);
        let k = ps.last().0;
        let v = ps.last().1;
        assert(ps.last() == ps[ps.len() - 1]);
        if k.len() > 0 {
            lemma_step_quiet(t, k, v, s);
        }
    }
}

impl DomApp {
    /// Whether every named global can be reported (see `globals_ok`).
    pub fn globals_reportable(globals: &StrMap) -> (ok: bool)
        ensures
            ok == globals_ok(globals.pairs()),
    {
        let n = globals.entries.len();
        let mut i: usize = 0;
        while i < n
            invariant
                i <= n == globals.pairs().len(),
                forall|j: int| 0 <= j < i && (#[trigger] globals.pairs()[j]).0.len() > 0 ==> global_ok(
                    globals.pairs()[j].0,
                    globals.pairs()[j].1,
                ),
            decreases n - i,
        {
            let act = chars_of(globals.entries[i].0.as_str());
            let v = chars_of(globals.entries[i].1.as_str());
            assert(globals.pairs()[i as int] == (act@, v@));
            if act.len() > 0 && !global_readable(&act, &v) {
                return false;
            }
            i += 1;
        }
        true
    }

    /// The program that evaluates `script` with the globals (see
    /// `eval_text`); nothing where the script has no body or a global
    /// cannot be reported. Each named global is stored in the scope
    /// variable of its name (see `stored`); no other variable changes.
    pub fn eval_program(globals: &StrMap, scope: &mut rhai::Scope<'static>, script: &str, common: &str) -> (r: Option<String>)
        requires
            globals.wf(),
        ensures
            match eval_body(script@) {
                None => r is None,
                Some(body) => match eval_text(common@, globals.pairs(), *old(scope), body) {
                    None => r is None,
                    Some(p) => r matches Some(x) && x@ == p,
                },
            },
            r is Some ==> forall|i: int|
                0 <= i < globals.pairs().len() && globals.pairs()[i].0.len() > 0 ==> #[trigger] stored(
                    *final(scope),
                    globals.pairs()[i].0,
                    globals.pairs()[i].1,
                    *old(scope),
                ),
            r is Some ==> forall|name: Seq<char>|
                !(exists|i: int| 0 <= i < globals.pairs().len() && (#[trigger] globals.pairs()[i]).0 == name) ==> same_var(
                    *final(scope),
                    *old(scope),
                    name,
                ),
    {
        let body = match body_of(script) {
            Some(b) => b,
            None => {
                return None;
            },
        };
        let ghost ps = globals.pairs();
        let ghost s0 = *scope;
        let mut a: Vec<char> = Vec::new();
        let mut b: Vec<char> = Vec::new();
        let n = globals.entries.len();
        let mut i: usize = 0;
        assert(ps.take(0) =~= Seq::<(Seq<char>, Seq<char>)>::empty());
        while i < n
            invariant
                i <= n == ps.len(),
                ps == globals.pairs(),
                s0 == *old(scope),
                eval_body(script@) == Some(body@),
                crate::strmap::keys_distinct(ps),
                eval_lines(ps.take(i as int), s0) == Some((a@, b@)),
                forall|j: int| i <= j < n ==> #[trigger] same_var(*scope, s0, ps[j].0),
                forall|j: int| 0 <= j < i && ps[j].0.len() > 0 ==> #[trigger] stored(*scope, ps[j].0, ps[j].1, s0),
                forall|name: Seq<char>|
                    !(exists|j: int| 0 <= j < i && (#[trigger] ps[j]).0 == name) ==> same_var(*scope, s0, name),
            decreases n - i,
        {
            let act = chars_of(globals.entries[i].0.as_str());
            let v = chars_of(globals.entries[i].1.as_str());
            assert(ps[i as int] == (act@, v@));
            assert(ps.take(i + 1).drop_last() =~= ps.take(i as int));
            assert(ps.take(i + 1).last() == ps[i as int]);
            let ghost cur = *scope;
            assert(same_var(cur, s0, act@));
            if act.len() > 0 {
                match global_lines(&act, &v, scope) {
                    Some((la, lb)) => {
                        push_all(&mut a, &la);
                        push_all(&mut b, &lb);
                    },
                    None => {
                        proof {
                            assert(global_step(act@, v@, cur) == global_step(act@, v@, s0));
                            assert(eval_lines(ps.take(i + 1), s0) is None);
                            lemma_eval_lines_none(ps, i + 1, s0);
                        }
                        return None;
                    },
                }
            }
            proof {
                assert forall|j: int| i + 1 <= j < n implies #[trigger] same_var(*scope, s0, ps[j].0) by {
                    assert(ps[j].0 != act@);
                    assert(same_var(cur, s0, ps[j].0));
                    assert(same_var(*scope, cur, ps[j].0));
                }
                assert forall|j: int| 0 <= j < i + 1 && ps[j].0.len() > 0 implies #[trigger] stored(*scope, ps[j].0, ps[j].1, s0) by {
                    if j < i {
                        assert(ps[j].0 != act@);
                        assert(stored(cur, ps[j].0, ps[j].1, s0));
                        assert(same_var(*scope, cur, ps[j].0));
                        lemma_stored_keeps(cur, *scope, ps[j].0, ps[j].1, s0);
                    }
                }
                assert forall|name: Seq<char>|
                    !(exists|j: int| 0 <= j < i + 1 && (#[trigger] ps[j]).0 == name) implies same_var(*scope, s0, name) by {
                    assert(!(exists|j: int| 0 <= j < i && (#[trigger] ps[j]).0 == name));
                    assert(ps[i as int].0 != name);
                    assert(same_var(cur, s0, name));
                    assert(same_var(*scope, cur, name));
                }
            }
            i += 1;
        }
        assert(ps.take(n as int) =~= ps);
        let mut text = chars_of(common);
        text.push(';');
        push_all(&mut text, &lit("let eve = result_init(curlib,base);"));
        push_all(&mut text, &a);
        push_all(&mut text, &b);
        if body.len() > 0 {
            push_all(&mut text, &lit("eve = "));
            push_all(&mut text, &body);
            push_all(&mut text, &lit(";return result_complete(eve);"));
        } else {
            push_all(&mut text, &lit("return result_complete(eve);"));
        }
        proof {
            assert forall|name: Seq<char>|
                !(exists|j: int| 0 <= j < ps.len() && (#[trigger] ps[j]).0 == name) implies same_var(*scope, s0, name) by {
                assert(!(exists|j: int| 0 <= j < n && (#[trigger] ps[j]).0 == name));
            }
        }
        assert(text@ =~= eval_text(common@, ps, s0, body@)->0);
        Some(string_of(&text))
    }

    /// Evaluates `script` in `scope` with the program `eval_program` makes;
    /// the answer is read as pairs (see `answer`). Nothing where there is no
    /// program or it fails.
    pub fn eval(
        globals: &StrMap,
        scope: &mut rhai::Scope<'static>,
        script: &str,
        engine: &rhai::Engine,
        common: &str,
    ) -> (r: Option<StrMap>)
        requires
            globals.wf(),
            globals_ok(globals.pairs()),
        ensures
            eval_body(script@) is None ==> r is None,
            eval_body(script@) matches Some(body) && eval_text(common@, globals.pairs(), *old(scope), body) is None ==> r is None,
            r matches Some(m) ==> m.wf() && exists|out: Seq<char>| m.map() == answer(out),
    {
        let program = match Self::eval_program(globals, scope, script, common) {
            Some(p) => p,
            None => {
                return None;
            },
        };
        match engine_eval_in(engine, scope, program.as_str()) {
            Some(out) => Some(parse_answer(out.as_str())),
            None => None,
        }
    }
}

// ---------------------------------------------------------------------------
// Decisions of the event loop
// ---------------------------------------------------------------------------

/// The element and action a result key `id.act` names: the first piece
/// before a dot, and the second (empty when there is none).
pub open spec fn key_parts(k: Seq<char>) -> (Seq<char>, Seq<char>) {
    let ps = split(k, '.');
    (ps[0], if ps.len() > 1 {
        ps[1]
    } else {
        Seq::empty()
    })
}

/// Splits a result key into element and action (see `key_parts`).
pub fn split_key(k: &Vec<char>) -> (r: (Vec<char>, Vec<char>))
    ensures
        (r.0@, r.1@) == key_parts(k@),
{
    let ps = split_on(k, '.');
    proof {
        crate::text::lemma_split_nonempty(k@, '.');
    }
    assert(ps.deep_view()[0] == ps@[0]@);
    let id = ps[0].clone();
    assert(id@ =~= ps@[0]@);
    if ps.len() > 1 {
        assert(ps.deep_view()[1] == ps@[1]@);
        let act = ps[1].clone();
        assert(act@ =~= ps@[1]@);
        (id, act)
    } else {
        (id, Vec::new())
    }
}

/// The selection of a choice list after choice `cc` is clicked, when `ss`
/// was selected: with nothing selected, just `cc`; else `cc` is taken out of
/// the `:`-separated selection if it is in it, or added at its end.
pub open spec fn toggled(ss: Seq<char>, cc: Seq<char>) -> Seq<char> {
    if ss.len() == 0 {
        cc
    } else {
        let sp = seq![':'] + cc + seq![':'];
        let sh0 = seq![':'] + ss + seq![':'];
        let sh = if crate::text::contains(sh0, sp) {
            crate::text::replace_all(sh0, sp, seq![':'])
        } else {
            sh0 + cc + seq![':']
        };
        if sh == seq![':'] {
            Seq::empty()
        } else {
            sh.subrange(1, sh.len() - 1)
        }
    }
}

/// The selection after the `n`-th of the choices `items` (separated by `:`)
/// is clicked in a list whose selection is `selected` (see `toggled`);
/// nothing where there is no `n`-th choice.
pub fn pick_choice(items: &Vec<char>, selected: &Vec<char>, n: usize) -> (r: Option<Vec<char>>)
    ensures
        match r {
            Some(t) => n < split(items@, ':').len() && t@ == toggled(selected@, split(items@, ':')[n as int]),
            None => n >= split(items@, ':').len(),
        },
{
    let pieces = split_on(items, ':');
    if n < pieces.len() {
        assert(pieces.deep_view()[n as int] == pieces@[n as int]@);
        Some(toggle_selected(selected, &pieces[n]))
    } else {
        None
    }
}

/// The selection after choice `cc` is clicked (see `toggled`).
pub fn toggle_selected(ss: &Vec<char>, cc: &Vec<char>) -> (r: Vec<char>)
    ensures
        r@ == toggled(ss@, cc@),
{
    if ss.len() == 0 {
        return cc.clone();
    }
    let mut sp = vec![':'];
    push_all(&mut sp, cc);
    sp.push(':');
    let mut sh = vec![':'];
    push_all(&mut sh, ss);
    sh.push(':');
    let ghost sh0 = sh@;
    assert(sp@ =~= seq![':'] + cc@ + seq![':']);
    assert(sh0 =~= seq![':'] + ss@ + seq![':']);
    let colon = vec![':'];
    assert(colon@ =~= seq![':']);
    let found = crate::text::find(&sh, &sp);
    if found {
        sh = crate::text::replace(&sh, &sp, &colon);
    } else {
        push_all(&mut sh, cc);
        sh.push(':');
        assert(sh@ =~= sh0 + cc@ + seq![':']);
    }
    if sh.len() == 1 && sh[0] == ':' {
        assert(sh@ =~= seq![':']);
        let e: Vec<char> = Vec::new();
        assert(e@ =~= Seq::<char>::empty());
        return e;
    }
    proof {
        if crate::text::contains(sh0, sp@) {
            crate::text::lemma_replace_ends(sh0, sp@);
        }
        if sh@.len() == 1 {
            assert(sh@ =~= seq![':']);
        }
    }
    crate::text::slice_of(&sh, 1, sh.len() - 1)
}

/// Division truncated toward zero, as Rust divides integers.
pub open spec fn tdiv(a: int, b: int) -> int {
    let q = (if a < 0 {
        -a
    } else {
        a
    }) / (if b < 0 {
        -b
    } else {
        b
    });
    if (a < 0) == (b < 0) {
        q
    } else {
        -q
    }
}

/// `a / b` on 16-bit integers (truncated toward zero).
pub(crate) fn div16(a: i16, b: i16) -> (r: i16)
    requires
        b != 0,
        !(a == i16::MIN && b == -1),
    ensures
        r == tdiv(a as int, b as int),
{
    let aa: i32 = if a < 0 {
        -(a as i32)
    } else {
        a as i32
    };
    let bb: i32 = if b < 0 {
        -(b as i32)
    } else {
        b as i32
    };
    let q: i32 = aa / bb;
    assert(0 <= q <= aa) by (nonlinear_arith)
        requires
            q == aa / bb,
            aa >= 0,
            bb >= 1,
    ;
    assert(q > 32767 ==> bb == 1) by (nonlinear_arith)
        requires
            q == aa / bb,
            aa <= 32768,
            bb >= 1,
    ;
    if (a < 0) == (b < 0) {
        q as i16
    } else {
        (-q) as i16
    }
}

/// Where a click at (`x`, `y`) with `button` lands on a choice list of
/// width `width`, rows 37 pixels high and 7 columns wide, the first row
/// being the title.
pub enum ChoiceHit {
    /// Not the first button, or the title row: nothing more is looked at.
    Stop,
    /// The division that finds the column fails (zero or overflowing width).
    Fault,
    /// Before the first choice: no choice.
    Miss,
    /// The `n`-th choice, if there is one.
    Cell(usize),
}

/// The choice a click lands on (see `ChoiceHit`); products and sums wrap
/// at 16 bits.
pub open spec fn choice_hit(x: i16, y: i16, width: u16, button: u8) -> ChoiceHit {
    let cy = tdiv(y as int, 37);
    let w = wrap16(width);
    let xm = (x as int * 7) as i16;
    if button != 1 || cy < 1 {
        ChoiceHit::Stop
    } else if w == 0 || (xm == i16::MIN && w == -1) {
        ChoiceHit::Fault
    } else {
        let m = (tdiv(xm as int, w as int) + (cy - 1) * 7) as i16;
        if m < 0 {
            ChoiceHit::Miss
        } else {
            ChoiceHit::Cell(m as usize)
        }
    }
}

/// Where a click lands on a choice list (see `choice_hit`).
pub fn choice_index(x: i16, y: i16, width: u16, button: u8) -> (r: ChoiceHit)
    ensures
        r == choice_hit(x, y, width, button),
{
    let cy = div16(y, 37);
    if button != 1 || cy < 1 {
        return ChoiceHit::Stop;
    }
    let w = crate::layout::wrap(width);
    let xm = x.wrapping_mul(7);
    assert(xm == (x as int * 7) as i16) by (bit_vector)
        requires
            xm == x.wrapping_mul(7),
    ;
    if w == 0 || (xm == i16::MIN && w == -1) {
        return ChoiceHit::Fault;
    }
    let cx = div16(xm, w);
    assert(-5 <= cy - 1 <= 886) by (nonlinear_arith)
        requires
            cy == tdiv(y as int, 37),
            cy >= 1,
            -32768 <= y <= 32767,
    ;
    let rows = (cy - 1) * 7;
    let m = cx.wrapping_add(rows);
    assert(m == (cx as int + rows as int) as i16) by (bit_vector)
        requires
            m == cx.wrapping_add(rows),
    ;
    if m < 0 {
        ChoiceHit::Miss
    } else {
        ChoiceHit::Cell(m as usize)
    }
}

/// `Season`.
pub open spec fn season() -> Seq<char> {
    seq!['S', 'e', 'a', 's', 'o', 'n']
}

/// `Series`.
pub open spec fn series() -> Seq<char> {
    seq!['S', 'e', 'r', 'i', 'e', 's']
}

/// The show a media path belongs to, from the `si`-th piece from the end
/// on: the piece before the first piece (looking up the path) that starts
/// with `Season` or `Series`, else `show`; nothing where a piece would be
/// sliced inside a character or looked for before the path's start.
pub open spec fn show_from(pv: Seq<Seq<char>>, si: int, show: Seq<char>) -> Option<Seq<char>>
    decreases pv.len() + 1 - si,
{
    if si < 1 || si > pv.len() {
        Some(show)
    } else {
        let c = pv[pv.len() - si];
        if utf8_len(c) > 5 {
            if !cuttable(c, 6) {
                None
            } else if cut(c, 6) == season() || cut(c, 6) == series() {
                if si == pv.len() {
                    None
                } else {
                    Some(pv[pv.len() - si - 1])
                }
            } else {
                show_from(pv, si + 1, show)
            }
        } else {
            show_from(pv, si + 1, show)
        }
    }
}

/// The show of a media path: the directory above a `Season…` or `Series…`
/// directory, else the grandparent directory of the file; nothing for a
/// path of fewer than three pieces.
pub open spec fn show_of(path: Seq<char>) -> Option<Seq<char>> {
    let pv = split(path, '/');
    if pv.len() < 3 {
        None
    } else {
        show_from(pv, 2, pv[pv.len() - 3])
    }
}

/// The show of a media path (see `show_of`).
pub fn show_name(path: &Vec<char>) -> (r: Option<Vec<char>>)
    ensures
        match r {
            Some(v) => show_of(path@) == Some(v@),
            None => show_of(path@) is None,
        },
{
    let pv = split_on(path, '/');
    let ghost ps = split(path@, '/');
    let l = pv.len();
    if l < 3 {
        return None;
    }
    assert(pv.deep_view()[l - 3] == pv@[l - 3]@);
    let mut show = pv[l - 3].clone();
    assert(show@ =~= ps[l - 3]);
    let lw = l as u128;
    let mut si: u128 = 2;
    while si <= lw
        invariant
            pv.deep_view() == ps,
            ps == split(path@, '/'),
            l == pv.len() == ps.len(),
            lw == l,
            2 <= si <= lw + 1,
            show_from(ps, si as int, show@) == show_of(path@),
        decreases lw + 1 - si,
    {
        let at = (lw - si) as usize;
        assert(pv.deep_view()[at as int] == pv@[at as int]@);
        let c = &pv[at];
        if crate::text::utf8_longer(c, 5) {
            let k = match crate::text::prefix_cut(c, 6) {
                Some(k) => k,
                None => {
                    return None;
                },
            };
            proof {
                crate::visual::lemma_cut_is(c@, 6, k as int);
            }
            let head = crate::text::slice_of(c, 0, k);
            assert(head@ =~= cut(c@, 6));
            let sea = vec!['S', 'e', 'a', 's', 'o', 'n'];
            assert(sea@ =~= season());
            let ser = vec!['S', 'e', 'r', 'i', 'e', 's'];
            assert(ser@ =~= series());
            if same(&head, &sea) || same(&head, &ser) {
                if si == lw {
                    return None;
                }
                assert(pv.deep_view()[at - 1] == pv@[at - 1]@);
                let r = pv[at - 1].clone();
                assert(r@ =~= ps[at - 1]);
                return Some(r);
            }
        }
        si += 1;
    }
    Some(show)
}

/// The call that reports event `event` of element `id` with argument `arg`:
/// `on_event(eve,"<id>","<event>",0,0,<arg>)`.
pub open spec fn event_call(id: Seq<char>, event: Seq<char>, arg: Seq<char>) -> Seq<char> {
    "on_event(eve,\""@ + id + "\",\""@ + event + "\",0,0,"@ + arg + ")"@
}

/// The call that reports an event (see `event_call`).
pub fn event_script(id: &Vec<char>, event: &Vec<char>, arg: &Vec<char>) -> (r: String)
    ensures
        r@ == event_call(id@, event@, arg@),
{
    let mut t = lit("on_event(eve,\"");
    push_all(&mut t, id);
    push_all(&mut t, &lit("\",\""));
    push_all(&mut t, event);
    push_all(&mut t, &lit("\",0,0,"));
    push_all(&mut t, arg);
    push_all(&mut t, &lit(")"));
    string_of(&t)
}

// ---------------------------------------------------------------------------
// Applying a script's results
// ---------------------------------------------------------------------------

/// What the application must do for a script result beyond the visuals it
/// changes here.
pub enum ScriptEffect {
    /// Quit.
    Quit,
    /// Evaluate this script and apply its results in turn.
    Evaluate(String),
    /// Rebuild every layer from its view file, layer `name` from `file`.
    ReplaceLayers(String, String),
    /// Rebuild the players.
    Rebuild,
    /// Restart the player of this media window.
    Die(u32),
    /// Play in the media window `to` the file the media window `from`
    /// plays.
    Clone(u32, u32),
    /// Send this control code to the player of this media window.
    Control(u32, i64),
}

/// What an effect asks for, with its texts as character sequences.
pub enum Ask {
    Quit,
    Evaluate(Seq<char>),
    ReplaceLayers(Seq<char>, Seq<char>),
    Rebuild,
    Die(u32),
    Clone(u32, u32),
    Control(u32, i64),
}

/// The ask of effect `e`.
pub open spec fn ask_of(e: ScriptEffect) -> Ask {
    match e {
        ScriptEffect::Quit => Ask::Quit,
        ScriptEffect::Evaluate(t) => Ask::Evaluate(t@),
        ScriptEffect::ReplaceLayers(a, f) => Ask::ReplaceLayers(a@, f@),
        ScriptEffect::Rebuild => Ask::Rebuild,
        ScriptEffect::Die(w) => Ask::Die(w),
        ScriptEffect::Clone(f, t) => Ask::Clone(f, t),
        ScriptEffect::Control(w, c) => Ask::Control(w, c),
    }
}

/// The asks of the effects `es`, in order.
pub open spec fn asks(es: Seq<ScriptEffect>) -> Seq<Ask> {
    Seq::new(es.len(), |i: int| ask_of(es[i]))
}

/// What applying a result to one visual does: the visual afterwards, the
/// globals, the requests it queues, the next free handle and what it asks.
pub struct StepOut {
    pub model: VisualView,
    pub globals: Map<Seq<char>, Seq<char>>,
    pub queued: Seq<XRequest>,
    pub next_id: u32,
    pub asks: Seq<Ask>,
}

/// The value a toggle result sets: the opposite of `cur` for `!`, else the
/// boolean `v` names.
pub open spec fn toggle_value(cur: bool, v: Seq<char>) -> Option<bool> {
    if v == seq!['!'] {
        Some(!cur)
    } else {
        parse_bool(v)
    }
}

/// The value a toggle result sets (see `toggle_value`).
fn toggle(cur: bool, v: &Vec<char>) -> (r: Option<bool>)
    ensures
        r == toggle_value(cur, v@),
{
    if v.len() == 1 && v[0] == '!' {
        assert(v@ =~= seq!['!']);
        Some(!cur)
    } else {
        if v.len() == 1 {
            assert(v@ != seq!['!'] ==> v@[0] != '!');
        }
        crate::numbers::parse_boolean(v)
    }
}

/// The attribute value a plain result sets for action `act`: for an `is_`
/// action, the opposite of the current boolean for `!` when the attribute
/// is there, else `true`; for any other action the value itself. Nothing
/// where the action's first three bytes are not whole characters or the
/// current value is not a boolean.
pub open spec fn attr_value(attrs: Map<Seq<char>, Seq<char>>, act: Seq<char>, v: Seq<char>) -> Option<Seq<char>> {
    if !cuttable(act, 3) {
        None
    } else if cut(act, 3) == is_prefix() {
        if v == seq!['!'] && attrs.dom().contains(act) {
            match parse_bool(attrs[act]) {
                Some(b) => Some(bool_text(!b)),
                None => None,
            }
        } else {
            Some(bool_text(true))
        }
    } else {
        Some(v)
    }
}

/// `m` checked or not.
pub open spec fn with_checked(m: VisualView, nv: bool) -> VisualView {
    VisualView { checked: nv, ..m }
}

/// `m` visible or not.
pub open spec fn with_visible(m: VisualView, nv: bool) -> VisualView {
    VisualView { visible: nv, ..m }
}

/// `m` with attribute `act` set to `val`, after the others.
pub open spec fn with_attr(m: VisualView, act: Seq<char>, val: Seq<char>) -> VisualView {
    VisualView {
        attrs: pairs_insert(crate::strmap::pairs_remove(m.attrs, act), act, val),
        ..m
    }
}

/// A `checked` result: the toggled state, with the style applied again when
/// it changed.
/// The requests a `checked` result queues: where the state changes, the
/// restyled visual's tree shown, or hidden when it is not visible.
pub open spec fn checked_queue(
    rules: Map<Seq<char>, Map<Seq<char>, Seq<char>>>,
    m: VisualView,
    v: Seq<char>,
) -> Seq<XRequest> {
    match toggle_value(m.checked, v) {
        Some(nv) => if nv != m.checked {
            match style_apply(rules, with_checked(m, nv), m.pwidth, m.pheight) {
                Some(f) => if f.visible {
                    show_requests(f)
                } else {
                    hide_requests(f)
                },
                None => Seq::empty(),
            }
        } else {
            Seq::empty()
        },
        None => Seq::empty(),
    }
}

pub open spec fn checked_result(
    rules: Map<Seq<char>, Map<Seq<char>, Seq<char>>>,
    m: VisualView,
    v: Seq<char>,
) -> Option<VisualView> {
    match toggle_value(m.checked, v) {
        None => None,
        Some(nv) => if nv == m.checked {
            Some(m)
        } else {
            style_apply(rules, with_checked(m, nv), m.pwidth, m.pheight)
        },
    }
}

/// The requests a `content` result queues (see `content_requests`): none
/// where the content is already `v`.
pub open spec fn content_queue(
    m: VisualView,
    v: Seq<char>,
    g: Seq<(char, u16, u16)>,
    nid: u32,
    drw: Drawable,
    depth: u8,
) -> Seq<XRequest> {
    if m.content == v {
        Seq::empty()
    } else {
        content_requests(m, m.children, v, g, nid, drw, depth)
    }
}

/// A `content` result: the visual laid out again with content `v`, unless
/// it already has it.
pub open spec fn content_result(
    m: VisualView,
    v: Seq<char>,
    g: Seq<(char, u16, u16)>,
    nid: u32,
) -> Option<VisualView> {
    if m.content == v {
        Some(m)
    } else {
        match content_fit(m, m.children, v, g, nid) {
            Some(f) => Some(f.0),
            None => None,
        }
    }
}

/// The control code a seek result sends: `base` plus the offset `v`, when
/// that is a number and the sum fits.
pub open spec fn seek_code(base: i64, v: Seq<char>) -> Option<i64> {
    match parse_i64(v) {
        Some(d) => if i64::MIN <= base + d <= i64::MAX {
            Some((base + d) as i64)
        } else {
            None
        },
        None => None,
    }
}

/// The effects are exactly one evaluation of `text`.
pub open spec fn evaluates(es: Seq<ScriptEffect>, text: Seq<char>) -> bool {
    es.len() == 1 && (es[0] matches ScriptEffect::Evaluate(e) && e@ == text)
}

/// A `control` result: nothing changes; a media box asked for its next
/// audio track sends that control to its player.
pub open spec fn control_done(m: VisualView, v: Seq<char>, es: Seq<ScriptEffect>) -> bool {
    if m.tag + seq!['.'] + v == "media.next-audio"@ {
        es == seq![ScriptEffect::Control(m.window, Player::CTL_NEXT_AUDIO)]
    } else {
        es.len() == 0
    }
}

/// The action `visual_result` takes for `act`: 1 `control`, 2 `checked`,
/// 3 `visible`, 4 `content`, 5 `seek-rel`, 6 `seek-abs`, 0 any other (an
/// attribute).
pub open spec fn act_kind(act: Seq<char>) -> u8 {
    if act == "control"@ {
        1
    } else if act == "checked"@ {
        2
    } else if act == "visible"@ {
        3
    } else if act == "content"@ {
        4
    } else if act == "seek-rel"@ {
        5
    } else if act == "seek-abs"@ {
        6
    } else {
        0
    }
}

/// The action `visual_result` takes for `act` (see `act_kind`).
pub fn kind_of(act: &Vec<char>) -> (k: u8)
    ensures
        k == act_kind(act@),
{
    if same(act, &lit("control")) {
        1
    } else if same(act, &lit("checked")) {
        2
    } else if same(act, &lit("visible")) {
        3
    } else if same(act, &lit("content")) {
        4
    } else if same(act, &lit("seek-rel")) {
        5
    } else if same(act, &lit("seek-abs")) {
        6
    } else {
        0
    }
}

/// What hiding `m` reports: a choice list whose selection differs from the
/// one it had when last hidden gives its id and its selection.
pub open spec fn hide_report(m: VisualView) -> Option<(Seq<char>, Seq<char>)> {
    let a = map_of(m.attrs);
    if m.tag == "choices"@ && a.dom().contains("id"@) && value_or(a, "__last-selected"@, Seq::empty()) != value_or(
        a,
        "selected"@,
        Seq::empty(),
    ) {
        Some((a["id"@], value_or(a, "selected"@, Seq::empty())))
    } else {
        None
    }
}

/// The control asks among `a`, in order.
pub open spec fn controls_of(a: Seq<Ask>) -> Seq<Ask>
    decreases a.len(),
{
    if a.len() == 0 {
        Seq::empty()
    } else {
        controls_of(a.drop_last()) + if a.last() is Control {
            seq![a.last()]
        } else {
            Seq::empty()
        }
    }
}

/// The evaluation asks among `a`, in order.
pub open spec fn evals_of(a: Seq<Ask>) -> Seq<Ask>
    decreases a.len(),
{
    if a.len() == 0 {
        Seq::empty()
    } else {
        evals_of(a.drop_last()) + if a.last() is Evaluate {
            seq![a.last()]
        } else {
            Seq::empty()
        }
    }
}

/// What applying the result `act` = `v` for element `id` to visual `m` does
/// (see `visual_result`), with globals `g`, next free handle `nid`, style
/// rules `rules`, glyphs `metrics`, and new surfaces made on `drw` at depth
/// `depth`; nothing where a value cannot be read.
pub open spec fn visual_step(
    rules: Map<Seq<char>, Map<Seq<char>, Seq<char>>>,
    metrics: Seq<(char, u16, u16)>,
    drw: Drawable,
    depth: u8,
    m: VisualView,
    g: Map<Seq<char>, Seq<char>>,
    nid: u32,
    id: Seq<char>,
    act: Seq<char>,
    v: Seq<char>,
) -> Option<StepOut> {
    let k = act_kind(act);
    if k == 1 {
        Some(
            StepOut {
                model: m,
                globals: g,
                queued: Seq::empty(),
                next_id: nid,
                asks: if m.tag + seq!['.'] + v == "media.next-audio"@ {
                    seq![Ask::Control(m.window, Player::CTL_NEXT_AUDIO)]
                } else {
                    Seq::empty()
                },
            },
        )
    } else if k == 2 {
        match checked_result(rules, m, v) {
            Some(f) => Some(StepOut { model: f, globals: g, queued: checked_queue(rules, m, v), next_id: nid, asks: Seq::empty() }),
            None => None,
        }
    } else if k == 3 {
        match toggle_value(m.visible, v) {
            None => None,
            Some(nv) => if nv == m.visible {
                Some(StepOut { model: m, globals: g, queued: Seq::empty(), next_id: nid, asks: Seq::empty() })
            } else if nv {
                let f = with_visible(m, true);
                Some(StepOut { model: f, globals: g, queued: show_requests(f), next_id: nid, asks: Seq::empty() })
            } else {
                match hide_report(m) {
                    None => Some(
                        StepOut {
                            model: with_visible(m, false),
                            globals: g,
                            queued: hide_requests(m),
                            next_id: nid,
                            asks: Seq::empty(),
                        },
                    ),
                    Some((i, sel)) => Some(
                        StepOut {
                            model: with_attr(with_visible(m, false), "__last-selected"@, sel),
                            globals: g.insert(i + "_selected"@, sel),
                            queued: hide_requests(m),
                            next_id: nid,
                            asks: seq![Ask::Evaluate(event_call(i + ".selected"@, "change"@, quoted(sel)))],
                        },
                    ),
                }
            },
        }
    } else if k == 4 {
        match content_result(m, v, metrics, nid) {
            Some(f) => Some(
                StepOut {
                    model: f,
                    globals: g,
                    queued: content_queue(m, v, metrics, nid, drw, depth),
                    next_id: if m.content == v {
                        nid
                    } else {
                        (content_fit(m, m.children, v, metrics, nid)->0).1
                    },
                    asks: Seq::empty(),
                },
            ),
            None => None,
        }
    } else if k == 5 || k == 6 {
        match seek_code(if k == 5 { Player::CTL_SEEK_REL } else { Player::CTL_SEEK_ABS }, v) {
            Some(c) => Some(
                StepOut { model: m, globals: g, queued: Seq::empty(), next_id: nid, asks: seq![Ask::Control(m.window, c)] },
            ),
            None => None,
        }
    } else {
        match attr_value(map_of(m.attrs), act, v) {
            Some(val) => Some(
                StepOut {
                    model: with_attr(m, act, val),
                    globals: g,
                    queued: Seq::empty(),
                    next_id: nid,
                    asks: seq![Ask::Evaluate(event_call(id + seq!['.'] + act, "change"@, quoted(val)))],
                },
            ),
            None => None,
        }
    }
}

impl DomApp {
    /// Applies the result `act` = `v` for element `id` to the visual `vr`
    /// that answers to `#id`, queueing what it draws and returning what the
    /// application must do; nothing where a value cannot be read:
    /// `control` (see `control_done`), `checked` (see `checked_result`),
    /// `visible` (shows or hides the tree; a hidden choice list whose
    /// selection changed since it was last hidden reports it), `content`
    /// (see `content_result`), `seek-rel` and `seek-abs` (see `seek_code`),
    /// and any other action sets the attribute (see `attr_value`) and
    /// reports the change (see `hide_report` for what hiding reports).
    #[verifier::rlimit(60)]
    #[verifier::spinoff_prover]
    pub fn visual_result(
        vr: &mut Visual,
        ctx: &mut Xcb,
        style: &Style,
        glyphs: &Glyphs,
        drw: Drawable,
        globals: &mut StrMap,
        id: &Vec<char>,
        act: &Vec<char>,
        v: &Vec<char>,
    ) -> (r: Option<Vec<ScriptEffect>>)
        requires
            view_wf(old(vr).model()),
            style.wf(),
            glyphs.wf(),
            old(globals).wf(),
        ensures
            final(globals).wf(),
            final(ctx).same_setup(old(ctx)),
            old(ctx).pending@.is_prefix_of(final(ctx).pending@),
            r is Some ==> view_wf(final(vr).model()),
            match visual_step(
                style.map(),
                glyphs.metrics@,
                drw,
                old(ctx).depth,
                old(vr).model(),
                old(globals).map(),
                old(ctx).next_id,
                id@,
                act@,
                v@,
            ) {
                None => r is None,
                Some(st) => r matches Some(es) && final(vr).model() == st.model && final(globals).map() == st.globals
                    && final(ctx).pending@ == old(ctx).pending@ + st.queued && final(ctx).next_id == st.next_id
                    && asks(es@) == st.asks,
            },
    {
        proof {
            reveal_strlit("media.next-audio");
        }
        let k = kind_of(act);
        if k == 1 {
            let es = Self::control_result(vr, v);
            proof {
                if vr.model().tag + seq!['.'] + v@ == "media.next-audio"@ {
                    assert(asks(es@) =~= seq![Ask::Control(vr.window, Player::CTL_NEXT_AUDIO)]);
                } else {
                    assert(asks(es@) =~= Seq::<Ask>::empty());
                }
                assert(ctx.pending@ =~= old(ctx).pending@ + Seq::<XRequest>::empty());
            }
            Some(es)
        } else if k == 2 {
            let r = Self::checked_apply(vr, ctx, style, v);
            proof {
                if r is Some {
                    let es = r->0;
                    assert(asks(es@) =~= Seq::<Ask>::empty());
                }
            }
            r
        } else if k == 3 {
            let r = Self::visible_apply(vr, ctx, globals, v);
            proof {
                if r is Some {
                    let es = r->0;
                    if es@.len() == 0 {
                        assert(asks(es@) =~= Seq::<Ask>::empty());
                    } else if let ScriptEffect::Evaluate(t) = es@[0] {
                        assert(asks(es@) =~= seq![Ask::Evaluate(t@)]);
                    }
                    if vr.visible == old(vr).visible {
                        assert(ctx.pending@ =~= old(ctx).pending@ + Seq::<XRequest>::empty());
                    }
                }
            }
            r
        } else if k == 4 {
            let r = Self::content_apply(vr, ctx, glyphs, drw, v);
            proof {
                if r is Some {
                    let es = r->0;
                    assert(asks(es@) =~= Seq::<Ask>::empty());
                }
            }
            r
        } else if k == 5 {
            let r = Self::seek_apply(vr, Player::CTL_SEEK_REL, v);
            proof {
                if r is Some {
                    let es = r->0;
                    assert(asks(es@) =~= seq![Ask::Control(vr.window, seek_code(Player::CTL_SEEK_REL, v@)->0)]);
                }
                assert(ctx.pending@ =~= old(ctx).pending@ + Seq::<XRequest>::empty());
            }
            r
        } else if k == 6 {
            let r = Self::seek_apply(vr, Player::CTL_SEEK_ABS, v);
            proof {
                if r is Some {
                    let es = r->0;
                    assert(asks(es@) =~= seq![Ask::Control(vr.window, seek_code(Player::CTL_SEEK_ABS, v@)->0)]);
                }
                assert(ctx.pending@ =~= old(ctx).pending@ + Seq::<XRequest>::empty());
            }
            r
        } else {
            let r = Self::attr_apply(vr, id, act, v);
            proof {
                if r is Some {
                    let es = r->0;
                    if let ScriptEffect::Evaluate(t) = es@[0] {
                        assert(asks(es@) =~= seq![Ask::Evaluate(t@)]);
                    }
                }
                assert(ctx.pending@ =~= old(ctx).pending@ + Seq::<XRequest>::empty());
            }
            r
        }
    }

    /// A `control` result (see `control_done`).
    fn control_result(vr: &Visual, v: &Vec<char>) -> (r: Vec<ScriptEffect>)
        ensures
            control_done(vr.model(), v@, r@),
    {
        let mut out: Vec<ScriptEffect> = Vec::new();
        let mut s = chars_of(vr.tag.as_str());
        s.push('.');
        push_all(&mut s, v);
        assert(s@ =~= vr.model().tag + seq!['.'] + v@);
        if same(&s, &lit("media.next-audio")) {
            out.push(ScriptEffect::Control(vr.window, Player::CTL_NEXT_AUDIO));
            assert(out@ =~= seq![ScriptEffect::Control(vr.window, Player::CTL_NEXT_AUDIO)]);
        }
        out
    }

    /// A `checked` result (see `checked_result`).
    #[verifier::rlimit(40)]
    #[verifier::spinoff_prover]
    fn checked_apply(vr: &mut Visual, ctx: &mut Xcb, style: &Style, v: &Vec<char>) -> (r: Option<Vec<ScriptEffect>>)
        requires
            view_wf(old(vr).model()),
            style.wf(),
        ensures
            r is Some <==> checked_result(style.map(), old(vr).model(), v@) is Some,
            r is Some ==> (r->0)@.len() == 0 && final(vr).model() == checked_result(style.map(), old(vr).model(), v@)->0,
            r is Some ==> final(ctx).pending@ == old(ctx).pending@ + checked_queue(style.map(), old(vr).model(), v@),
            final(ctx).next_id == old(ctx).next_id,
            r is Some ==> view_wf(final(vr).model()),
            final(ctx).same_setup(old(ctx)),
            old(ctx).pending@.is_prefix_of(final(ctx).pending@),
    {
        let out: Vec<ScriptEffect> = Vec::new();
        let nv = match toggle(vr.checked, v) {
            Some(b) => b,
            None => {
                return None;
            },
        };
        if nv != vr.checked {
            vr.checked = nv;
            let pw = vr.pwidth;
            let ph = vr.pheight;
            let ghost m1 = vr.model();
            assert(m1 == with_checked(old(vr).model(), nv));
            assert(view_wf(m1));
            if !style.apply(ctx, vr, pw, ph) {
                return None;
            }
            proof {
                crate::style::lemma_style_apply_keeps(style.map(), m1, pw, ph);
                assert(vr.model().attrs == m1.attrs && vr.model().children == m1.children);
            }
        } else {
            assert(ctx.pending@ =~= old(ctx).pending@ + checked_queue(style.map(), old(vr).model(), v@));
        }
        Some(out)
    }

    /// A `visible` result: shows or hides the tree; a choice list hidden
    /// with a selection different from the one it had when last hidden
    /// reports `<id>.selected` changed and stores it as global
    /// `<id>_selected`.
    fn visible_apply(vr: &mut Visual, ctx: &mut Xcb, globals: &mut StrMap, v: &Vec<char>) -> (r: Option<Vec<ScriptEffect>>)
        requires
            view_wf(old(vr).model()),
            old(globals).wf(),
        ensures
            final(globals).wf(),
            r is Some <==> toggle_value(old(vr).visible, v@) is Some,
            r is Some ==> final(vr).visible == toggle_value(old(vr).visible, v@)->0,
            r is Some && final(vr).visible == old(vr).visible ==> *final(vr) == *old(vr) && (r->0)@.len() == 0
                && *final(ctx) == *old(ctx),
            r is Some && final(vr).visible && !old(vr).visible ==> final(vr).model() == with_visible(old(vr).model(), true)
                && (r->0)@.len() == 0,
            r is Some && final(vr).visible && !old(vr).visible ==> final(ctx).pending@ == old(ctx).pending@ + show_requests(final(vr).model()),
            r is Some && !final(vr).visible && old(vr).visible ==> final(ctx).pending@ == old(ctx).pending@ + hide_requests(old(vr).model()),
            r is Some && !final(vr).visible && old(vr).visible && hide_report(old(vr).model()) is None ==> final(vr).model()
                == with_visible(old(vr).model(), false) && (r->0)@.len() == 0 && *final(globals) == *old(globals),
            r is Some && !final(vr).visible && old(vr).visible ==> match hide_report(old(vr).model()) {
                Some((i, sel)) => final(vr).model() == with_attr(with_visible(old(vr).model(), false), "__last-selected"@, sel)
                    && final(globals).map() == old(globals).map().insert(i + "_selected"@, sel) && evaluates(
                    (r->0)@,
                    event_call(i + ".selected"@, "change"@, quoted(sel)),
                ),
                None => true,
            },
            !(r is Some && !final(vr).visible && old(vr).visible) ==> *final(globals) == *old(globals),
            final(ctx).next_id == old(ctx).next_id,
            r is Some ==> view_wf(final(vr).model()),
            final(ctx).same_setup(old(ctx)),
            old(ctx).pending@.is_prefix_of(final(ctx).pending@),
    {
        let mut out: Vec<ScriptEffect> = Vec::new();
        let nv = match toggle(vr.visible, v) {
            Some(b) => b,
            None => {
                return None;
            },
        };
        if nv != vr.visible {
            vr.visible = nv;
            if vr.visible {
                vr.show(ctx);
            } else {
                assert(vr.model() == with_visible(old(vr).model(), false));
                vr.hide_tree(ctx);
                proof {
                    reveal_strlit("id");
                    reveal_strlit("choices");
                    reveal_strlit("__last-selected");
                    reveal_strlit("selected");
                }
                let key = vec!['i', 'd'];
                assert(key@ =~= "id"@);
                if crate::text::is(&vr.tag, "choices") {
                    let idv = match vr.attrs.get(&key) {
                        Some(i) => Some(chars_of(i.as_str())),
                        None => None,
                    };
                    match idv {
                        Some(vid) => {
                            let lk = lit("__last-selected");
                            let sk = lit("selected");
                            let blank: Vec<char> = Vec::new();
                            let lsel = vr.attrs.get_or(&lk, &blank);
                            let sel = vr.attrs.get_or(&sk, &blank);
                            if !same(&lsel, &sel) {
                                let mut gk = vid.clone();
                                push_all(&mut gk, &lit("_selected"));
                                if globals.contains_key(&gk) {
                                    globals.remove(&gk);
                                }
                                globals.insert(&gk, &sel);
                                let mut ek = vid.clone();
                                push_all(&mut ek, &lit(".selected"));
                                let mut q = vec!['"'];
                                push_all(&mut q, &sel);
                                q.push('"');
                                assert(q@ =~= quoted(sel@));
                                out.push(ScriptEffect::Evaluate(event_script(&ek, &lit("change"), &q)));
                                if vr.attrs.contains_key(&lk) {
                                    vr.attrs.remove(&lk);
                                }
                                let ghost mid = vr.attrs.pairs();
                                assert(mid == crate::strmap::pairs_remove(old(vr).attrs.pairs(), lk@));
                                vr.attrs.insert(&lk, &sel);
                                assert(vr.model().children == old(vr).model().children);
                                assert(vr.model() == with_attr(with_visible(old(vr).model(), false), "__last-selected"@, sel@));
                            }
                        },
                        None => {},
                    }
                }
            }
        }
        Some(out)
    }

    /// A `content` result (see `content_result`).
    fn content_apply(vr: &mut Visual, ctx: &mut Xcb, glyphs: &Glyphs, drw: Drawable, v: &Vec<char>) -> (r: Option<Vec<ScriptEffect>>)
        requires
            view_wf(old(vr).model()),
            glyphs.wf(),
        ensures
            r is Some <==> content_result(old(vr).model(), v@, glyphs.metrics@, old(ctx).next_id) is Some,
            r is Some ==> (r->0)@.len() == 0 && final(vr).model() == content_result(old(vr).model(), v@, glyphs.metrics@, old(ctx).next_id)->0,
            r is Some ==> final(ctx).pending@ == old(ctx).pending@ + content_queue(
                old(vr).model(),
                v@,
                glyphs.metrics@,
                old(ctx).next_id,
                drw,
                old(ctx).depth,
            ),
            r is Some ==> final(ctx).next_id == if old(vr).model().content == v@ {
                old(ctx).next_id
            } else {
                (content_fit(old(vr).model(), old(vr).model().children, v@, glyphs.metrics@, old(ctx).next_id)->0).1
            },
            r is Some ==> view_wf(final(vr).model()),
            final(ctx).same_setup(old(ctx)),
            old(ctx).pending@.is_prefix_of(final(ctx).pending@),
    {
        let out: Vec<ScriptEffect> = Vec::new();
        if !same(&chars_of(vr.content.as_str()), v) {
            if !vr.set_content(ctx, glyphs, drw, v) {
                return None;
            }
        } else {
            assert(ctx.pending@ =~= old(ctx).pending@ + Seq::<XRequest>::empty());
        }
        Some(out)
    }

    /// A seek result (see `seek_code`).
    fn seek_apply(vr: &Visual, base: i64, v: &Vec<char>) -> (r: Option<Vec<ScriptEffect>>)
        ensures
            r is Some <==> seek_code(base, v@) is Some,
            r is Some ==> (r->0)@ == seq![ScriptEffect::Control(vr.window, seek_code(base, v@)->0)],
    {
        let mut out: Vec<ScriptEffect> = Vec::new();
        let d = match crate::numbers::parse_int(v) {
            Some(d) => d,
            None => {
                return None;
            },
        };
        match base.checked_add(d) {
            Some(code) => {
                out.push(ScriptEffect::Control(vr.window, code));
                assert(out@ =~= seq![ScriptEffect::Control(vr.window, code)]);
                Some(out)
            },
            None => None,
        }
    }

    /// A plain result: sets the attribute (see `attr_value`) and reports the
    /// change of `<id>.<act>`.
    fn attr_apply(vr: &mut Visual, id: &Vec<char>, act: &Vec<char>, v: &Vec<char>) -> (r: Option<Vec<ScriptEffect>>)
        requires
            view_wf(old(vr).model()),
        ensures
            r is Some <==> attr_value(map_of(old(vr).model().attrs), act@, v@) is Some,
            r is Some ==> final(vr).model() == with_attr(old(vr).model(), act@, attr_value(map_of(old(vr).model().attrs), act@, v@)->0),
            r is Some ==> evaluates((r->0)@, event_call(id@ + seq!['.'] + act@, "change"@, quoted(attr_value(map_of(old(vr).model().attrs), act@, v@)->0))),
            r is Some ==> view_wf(final(vr).model()),
    {
        let mut out: Vec<ScriptEffect> = Vec::new();
        let val = match attr_of(&vr.attrs, act, v) {
            Some(x) => x,
            None => {
                return None;
            },
        };
        if vr.attrs.contains_key(act) {
            vr.attrs.remove(act);
        }
        let ghost mid = vr.attrs.pairs();
        assert(mid == crate::strmap::pairs_remove(old(vr).attrs.pairs(), act@));
        vr.attrs.insert(act, &val);
        let mut ek = id.clone();
        ek.push('.');
        push_all(&mut ek, act);
        assert(ek@ =~= id@ + seq!['.'] + act@);
        let mut q = vec!['"'];
        push_all(&mut q, &val);
        q.push('"');
        assert(q@ =~= quoted(val@));
        out.push(ScriptEffect::Evaluate(event_script(&ek, &lit("change"), &q)));
        Some(out)
    }
}

/// The attribute value a plain result sets (see `attr_value`).
fn attr_of(attrs: &StrMap, act: &Vec<char>, v: &Vec<char>) -> (r: Option<Vec<char>>)
    requires
        attrs.wf(),
    ensures
        match r {
            Some(x) => attr_value(attrs.map(), act@, v@) == Some(x@),
            None => attr_value(attrs.map(), act@, v@) is None,
        },
{
    let k3 = match crate::text::prefix_cut(act, 3) {
        Some(k) => k,
        None => {
            return None;
        },
    };
    proof {
        crate::visual::lemma_cut_is(act@, 3, k3 as int);
    }
    let head = crate::text::slice_of(act, 0, k3);
    assert(head@ =~= cut(act@, 3));
    let isp = vec!['i', 's', '_'];
    assert(isp@ =~= is_prefix());
    if same(&head, &isp) {
        let bang = v.len() == 1 && v[0] == '!';
        if bang {
            assert(v@ =~= seq!['!']);
        }
        assert(bang == (v@ == seq!['!']));
        if bang && attrs.contains_key(act) {
            let cur = attrs.get_or(act, &Vec::new());
            match crate::numbers::parse_boolean(&cur) {
                Some(b) => Some(crate::numbers::print_bool(!b)),
                None => None,
            }
        } else {
            Some(crate::numbers::print_bool(true))
        }
    } else {
        Some(v.clone())
    }
}

/// The window of the first visual of layer `l` that answers to `#id`.
pub open spec fn window_in(l: Layer, id: Seq<char>) -> Option<u32> {
    match search(l.root_visual.model(), by_selector(seq!['#'] + id)) {
        Some(p) => Some(node_at(l.root_visual.model(), p).window),
        None => None,
    }
}

/// The first layer named `players` holds the media windows: nothing where
/// there is no such layer, else the window in it that answers to `#id`.
pub open spec fn players_window(ls: Seq<(String, Layer)>, id: Seq<char>) -> Option<Option<u32>> {
    if exists|i: int| 0 <= i < ls.len() && (#[trigger] ls[i]).0@ == "players"@ {
        let i = choose|i: int|
            0 <= i < ls.len() && (#[trigger] ls[i]).0@ == "players"@ && forall|j: int| 0 <= j < i ==> ls[j].0@ != "players"@;
        Some(window_in(ls[i].1, id))
    } else {
        None
    }
}

/// The `players` layer found by a search from the front is the one
/// `players_window` speaks of.
proof fn lemma_players_window(ls: Seq<(String, Layer)>, pi: Option<usize>, id: Seq<char>)
    requires
        match pi {
            Some(i) => i < ls.len() && ls[i as int].0@ == "players"@ && forall|j: int| 0 <= j < i ==> ls[j].0@ != "players"@,
            None => forall|j: int| 0 <= j < ls.len() ==> ls[j].0@ != "players"@,
        },
    ensures
        match pi {
            Some(i) => players_window(ls, id) == Some(window_in(ls[i as int].1, id)),
            None => players_window(ls, id) is None,
        },
{
    if let Some(i) = pi {
        let i = i as int;
        assert(0 <= i < ls.len() && (#[trigger] ls[i]).0@ == "players"@);
        let c = choose|c: int|
            0 <= c < ls.len() && (#[trigger] ls[c]).0@ == "players"@ && forall|j: int| 0 <= j < c ==> ls[j].0@ != "players"@;
        assert(0 <= c < ls.len() && ls[c].0@ == "players"@ && forall|j: int| 0 <= j < c ==> ls[j].0@ != "players"@);
        if c < i {
            assert(ls[c].0@ != "players"@);
        }
        if c > i {
            assert(ls[i].0@ != "players"@);
        }
    } else {
        if exists|i: int| 0 <= i < ls.len() && (#[trigger] ls[i]).0@ == "players"@ {
            let i = choose|i: int| 0 <= i < ls.len() && (#[trigger] ls[i]).0@ == "players"@;
            assert(ls[i].0@ != "players"@);
        }
    }
}

/// The index of the first layer named `name`.
fn find_layer(ls: &Vec<(String, Layer)>, name: &Vec<char>) -> (r: Option<usize>)
    ensures
        match r {
            Some(i) => i < ls@.len() && ls@[i as int].0@ == name@ && forall|j: int| 0 <= j < i ==> ls@[j].0@ != name@,
            None => forall|j: int| 0 <= j < ls@.len() ==> ls@[j].0@ != name@,
        },
{
    let mut i: usize = 0;
    while i < ls.len()
        invariant
            i <= ls@.len(),
            forall|j: int| 0 <= j < i ==> ls@[j].0@ != name@,
        decreases ls.len() - i,
    {
        if same(&chars_of(ls[i].0.as_str()), name) {
            return Some(i);
        }
        i += 1;
    }
    None
}

/// The window of the first visual of layer `l` that answers to `#id`.
fn window_of(l: &Layer, id: &Vec<char>) -> (r: Option<u32>)
    requires
        view_wf(l.root_visual.model()),
    ensures
        match r {
            Some(w) => search(l.root_visual.model(), by_selector(seq!['#'] + id@)) matches Some(p) && node_at(l.root_visual.model(), p).window == w,
            None => search(l.root_visual.model(), by_selector(seq!['#'] + id@)) is None,
        },
{
    let mut sel = vec!['#'];
    push_all(&mut sel, id);
    assert(sel@ =~= seq!['#'] + id@);
    match l.select_visual(&sel) {
        Some(p) => {
            proof {
                lemma_search_valid(l.root_visual.model(), by_selector(sel@));
            }
            Some(l.root_visual.window_at(&p))
        },
        None => None,
    }
}

impl DomApp {
    /// Applies the result `act` = `v` for element `id` to the visual at
    /// `path` in layer `l` (see `visual_result`): the control codes it asks
    /// for go to `ret`, the evaluations to `evals`. False where the result
    /// cannot be applied.
    fn result_at(
        l: &mut Layer,
        path: &Vec<usize>,
        ctx: &mut Xcb,
        style: &Style,
        glyphs: &Glyphs,
        drw: Drawable,
        globals: &mut StrMap,
        id: &Vec<char>,
        act: &Vec<char>,
        v: &Vec<char>,
        ret: &mut Vec<ScriptEffect>,
        evals: &mut Vec<ScriptEffect>,
    ) -> (r: bool)
        requires
            view_wf(old(l).root_visual.model()),
            valid_path(old(l).root_visual.model(), path@),
            style.wf(),
            glyphs.wf(),
            old(globals).wf(),
        ensures
            final(l).root == old(l).root,
            final(l).file == old(l).file,
            r ==> view_wf(final(l).root_visual.model()),
            final(globals).wf(),
            final(ctx).same_setup(old(ctx)),
            old(ctx).pending@.is_prefix_of(final(ctx).pending@),
            final(ret)@.len() >= old(ret)@.len(),
            forall|q: int| 0 <= q < old(ret)@.len() ==> final(ret)@[q] == old(ret)@[q],
            r == visual_step(
                style.map(),
                glyphs.metrics@,
                drw,
                old(ctx).depth,
                node_at(old(l).root_visual.model(), path@),
                old(globals).map(),
                old(ctx).next_id,
                id@,
                act@,
                v@,
            ) is Some,
            match visual_step(
                style.map(),
                glyphs.metrics@,
                drw,
                old(ctx).depth,
                node_at(old(l).root_visual.model(), path@),
                old(globals).map(),
                old(ctx).next_id,
                id@,
                act@,
                v@,
            ) {
                Some(st) => final(l).root_visual.model() == replace_at(old(l).root_visual.model(), path@, st.model)
                    && final(globals).map() == st.globals && final(ctx).pending@ == old(ctx).pending@ + st.queued
                    && final(ctx).next_id == st.next_id && asks(final(ret)@) == asks(old(ret)@) + controls_of(st.asks)
                    && asks(final(evals)@) == asks(old(evals)@) + evals_of(st.asks),
                None => true,
            },
    {
        let ghost t = l.root_visual.model();
        proof {
            assert(path@.skip(0) =~= path@);
            lemma_replace_wf(t, path@, node_at(t, path@));
        }
        let mut tmp = Visual::blank();
        let ghost bm = tmp.model();
        l.root_visual.swap_at(path, 0, &mut tmp);
        let res = Self::visual_result(&mut tmp, ctx, style, glyphs, drw, globals, id, act, v);
        match res {
            Some(es) => {
                let ghost nm = tmp.model();
                proof {
                    lemma_replace_twice(t, path@, bm, nm);
                    lemma_replace_wf(t, path@, nm);
                }
                l.root_visual.swap_at(path, 0, &mut tmp);
                let ghost r0 = ret@;
                let ghost e0 = evals@;
                let ghost ea = asks(es@);
                let mut i: usize = 0;
                assert(ea.take(0) =~= Seq::<Ask>::empty());
                assert(asks(r0) + controls_of(ea.take(0)) =~= asks(r0));
                assert(asks(e0) + evals_of(ea.take(0)) =~= asks(e0));
                while i < es.len()
                    invariant
                        i <= es@.len(),
                        ea == asks(es@),
                        ret@.len() >= r0.len(),
                        forall|q: int| 0 <= q < r0.len() ==> ret@[q] == r0[q],
                        asks(ret@) == asks(r0) + controls_of(ea.take(i as int)),
                        asks(evals@) == asks(e0) + evals_of(ea.take(i as int)),
                    decreases es.len() - i,
                {
                    let ghost rb = ret@;
                    let ghost eb = evals@;
                    assert(ea.take(i + 1).drop_last() =~= ea.take(i as int));
                    assert(ea.take(i + 1).last() == ask_of(es@[i as int]));
                    match &es[i] {
                        ScriptEffect::Evaluate(t) => {
                            evals.push(ScriptEffect::Evaluate(string_of(&chars_of(t.as_str()))));
                            assert(asks(evals@) =~= asks(eb) + seq![ask_of(es@[i as int])]);
                            assert(asks(ret@) =~= asks(rb));
                        },
                        ScriptEffect::Control(w, c) => {
                            ret.push(ScriptEffect::Control(*w, *c));
                            assert(asks(ret@) =~= asks(rb) + seq![ask_of(es@[i as int])]);
                            assert(asks(evals@) =~= asks(eb));
                        },
                        _ => {},
                    }
                    assert(asks(ret@) =~= asks(r0) + controls_of(ea.take(i + 1)));
                    assert(asks(evals@) =~= asks(e0) + evals_of(ea.take(i + 1)));
                    i += 1;
                }
                assert(ea.take(i as int) =~= ea);
                true
            },
            None => false,
        }
    }
}

/// What applying an element's result to the layers does: their trees
/// afterwards, the globals, the requests queued, the next free handle, and
/// the control and evaluation asks gathered.
pub struct LayersOut {
    pub models: Seq<VisualView>,
    pub globals: Map<Seq<char>, Seq<char>>,
    pub queued: Seq<XRequest>,
    pub next_id: u32,
    pub controls: Seq<Ask>,
    pub evals: Seq<Ask>,
}

/// The visual trees of the layers `ls`, in order.
pub open spec fn layer_models(ls: Seq<(String, Layer)>) -> Seq<VisualView> {
    Seq::new(ls.len(), |j: int| ls[j].1.root_visual.model())
}

/// The result `act` = `v` for element `id` applied to the first visual of
/// tree `m` that answers to `#id` (see `visual_step`), with globals `g` and
/// next free handle `nid`: the tree afterwards (alone in `models`) and what
/// the step leaves and asks; the tree stays where no visual answers.
pub open spec fn one_layer(
    rules: Map<Seq<char>, Map<Seq<char>, Seq<char>>>,
    metrics: Seq<(char, u16, u16)>,
    drw: Drawable,
    depth: u8,
    m: VisualView,
    g: Map<Seq<char>, Seq<char>>,
    nid: u32,
    id: Seq<char>,
    act: Seq<char>,
    v: Seq<char>,
) -> Option<LayersOut> {
    match search(m, by_selector(seq!['#'] + id)) {
        None => Some(
            LayersOut {
                models: seq![m],
                globals: g,
                queued: Seq::empty(),
                next_id: nid,
                controls: Seq::empty(),
                evals: Seq::empty(),
            },
        ),
        Some(p) => match visual_step(rules, metrics, drw, depth, node_at(m, p), g, nid, id, act, v) {
            None => None,
            Some(st) => Some(
                LayersOut {
                    models: seq![replace_at(m, p, st.model)],
                    globals: st.globals,
                    queued: st.queued,
                    next_id: st.next_id,
                    controls: controls_of(st.asks),
                    evals: evals_of(st.asks),
                },
            ),
        },
    }
}

/// The result `act` = `v` for element `id` applied to the trees `ms` one
/// after the other (see `one_layer`), each step seeing the globals and
/// handle the one before left; nothing where a step fails.
pub open spec fn layers_step(
    rules: Map<Seq<char>, Map<Seq<char>, Seq<char>>>,
    metrics: Seq<(char, u16, u16)>,
    drw: Drawable,
    depth: u8,
    ms: Seq<VisualView>,
    g: Map<Seq<char>, Seq<char>>,
    nid: u32,
    id: Seq<char>,
    act: Seq<char>,
    v: Seq<char>,
) -> Option<LayersOut>
    decreases ms.len(),
{
    if ms.len() == 0 {
        Some(
            LayersOut {
                models: Seq::empty(),
                globals: g,
                queued: Seq::empty(),
                next_id: nid,
                controls: Seq::empty(),
                evals: Seq::empty(),
            },
        )
    } else {
        match layers_step(rules, metrics, drw, depth, ms.drop_last(), g, nid, id, act, v) {
            None => None,
            Some(o) => match one_layer(rules, metrics, drw, depth, ms.last(), o.globals, o.next_id, id, act, v) {
                None => None,
                Some(d) => Some(
                    LayersOut {
                        models: o.models + d.models,
                        globals: d.globals,
                        queued: o.queued + d.queued,
                        next_id: d.next_id,
                        controls: o.controls + d.controls,
                        evals: o.evals + d.evals,
                    },
                ),
            },
        }
    }
}

proof fn lemma_layers_step_next(
    rules: Map<Seq<char>, Map<Seq<char>, Seq<char>>>,
    metrics: Seq<(char, u16, u16)>,
    drw: Drawable,
    depth: u8,
    ms: Seq<VisualView>,
    k: int,
    g: Map<Seq<char>, Seq<char>>,
    nid: u32,
    id: Seq<char>,
    act: Seq<char>,
    v: Seq<char>,
)
    requires
        0 <= k < ms.len(),
    ensures
        layers_step(rules, metrics, drw, depth, ms.take(k + 1), g, nid, id, act, v) == match layers_step(
            rules,
            metrics,
            drw,
            depth,
            ms.take(k),
            g,
            nid,
            id,
            act,
            v,
        ) {
            None => None,
            Some(o) => match one_layer(rules, metrics, drw, depth, ms[k], o.globals, o.next_id, id, act, v) {
                None => None,
                Some(d) => Some(
                    LayersOut {
                        models: o.models + d.models,
                        globals: d.globals,
                        queued: o.queued + d.queued,
                        next_id: d.next_id,
                        controls: o.controls + d.controls,
                        evals: o.evals + d.evals,
                    },
                ),
            },
        },
{
    assert(ms.take(k + 1).drop_last() =~= ms.take(k));
    assert(ms.take(k + 1).last() == ms[k]);
}

proof fn lemma_layers_step_prefix(
    rules: Map<Seq<char>, Map<Seq<char>, Seq<char>>>,
    metrics: Seq<(char, u16, u16)>,
    drw: Drawable,
    depth: u8,
    ms: Seq<VisualView>,
    j: int,
    g: Map<Seq<char>, Seq<char>>,
    nid: u32,
    id: Seq<char>,
    act: Seq<char>,
    v: Seq<char>,
)
    requires
        0 <= j <= ms.len(),
        layers_step(rules, metrics, drw, depth, ms.take(j), g, nid, id, act, v) is None,
    ensures
        layers_step(rules, metrics, drw, depth, ms, g, nid, id, act, v) is None,
    decreases ms.len() - j,
{
    if j < ms.len() {
        assert(ms.take(j + 1).drop_last() =~= ms.take(j));
        lemma_layers_step_prefix(rules, metrics, drw, depth, ms, j + 1, g, nid, id, act, v);
    } else {
        assert(ms.take(j) =~= ms);
    }
}

impl DomApp {
    /// Applies the result `act` = `v` for element `id` to the first visual
    /// of layer `l` that answers to `sel` (`#id`), if any (see `one_layer`):
    /// the control codes it asks for go to `ret`, the evaluations to `evals`.
    /// False where the result cannot be applied.
    fn layer_result(
        l: &mut Layer,
        sel: &Vec<char>,
        ctx: &mut Xcb,
        style: &Style,
        glyphs: &Glyphs,
        drw: Drawable,
        globals: &mut StrMap,
        id: &Vec<char>,
        act: &Vec<char>,
        v: &Vec<char>,
        ret: &mut Vec<ScriptEffect>,
        evals: &mut Vec<ScriptEffect>,
    ) -> (r: bool)
        requires
            view_wf(old(l).root_visual.model()),
            sel@ == seq!['#'] + id@,
            style.wf(),
            glyphs.wf(),
            old(globals).wf(),
        ensures
            final(l).root == old(l).root,
            final(l).file == old(l).file,
            r ==> view_wf(final(l).root_visual.model()),
            final(globals).wf(),
            final(ctx).same_setup(old(ctx)),
            old(ctx).pending@.is_prefix_of(final(ctx).pending@),
            final(ret)@.len() >= old(ret)@.len(),
            forall|q: int| 0 <= q < old(ret)@.len() ==> final(ret)@[q] == old(ret)@[q],
            r == one_layer(
                style.map(),
                glyphs.metrics@,
                drw,
                old(ctx).depth,
                old(l).root_visual.model(),
                old(globals).map(),
                old(ctx).next_id,
                id@,
                act@,
                v@,
            ) is Some,
            match one_layer(
                style.map(),
                glyphs.metrics@,
                drw,
                old(ctx).depth,
                old(l).root_visual.model(),
                old(globals).map(),
                old(ctx).next_id,
                id@,
                act@,
                v@,
            ) {
                Some(d) => seq![final(l).root_visual.model()] == d.models && final(globals).map() == d.globals
                    && final(ctx).pending@ == old(ctx).pending@ + d.queued && final(ctx).next_id == d.next_id
                    && asks(final(ret)@) == asks(old(ret)@) + d.controls && asks(final(evals)@) == asks(old(evals)@)
                    + d.evals,
                None => true,
            },
            window_in(*old(l), id@) is None ==> *final(l) == *old(l) && *final(globals) == *old(globals) && *final(ctx)
                == *old(ctx) && final(ret)@ == old(ret)@ && final(evals)@ == old(evals)@,
    {
        match l.select_visual(sel) {
            None => {
                assert(asks(ret@) =~= asks(ret@) + Seq::<Ask>::empty());
                assert(asks(evals@) =~= asks(evals@) + Seq::<Ask>::empty());
                assert(ctx.pending@ =~= ctx.pending@ + Seq::<XRequest>::empty());
                assert(seq![l.root_visual.model()] =~= seq![old(l).root_visual.model()]);
                true
            },
            Some(path) => {
                proof {
                    lemma_search_valid(l.root_visual.model(), by_selector(sel@));
                }
                Self::result_at(l, &path, ctx, style, glyphs, drw, globals, id, act, v, ret, evals)
            },
        }
    }
}

/// A result `id.act` = `v` addressed to an element (not `_` = `?`, `app`,
/// `globals` or `layers`).
pub open spec fn element_result(id: Seq<char>, v: Seq<char>) -> bool {
    !(id == seq!['_'] && v == seq!['?']) && id != "app"@ && id != "globals"@ && id != "layers"@
}

/// A media window was found.
pub open spec fn found(w: Option<Option<u32>>) -> bool {
    w matches Some(Some(_))
}

/// A `clone` result goes on only where both media windows are found.
pub open spec fn clone_passes(ls: Seq<(String, Layer)>, id: Seq<char>, act: Seq<char>, v: Seq<char>) -> bool {
    act != "clone"@ || (found(players_window(ls, v)) && found(players_window(ls, id)))
}

/// A result addressed to an element that needs the `players` layer finds
/// what it needs there: a `clone` finds that layer, and the window of `#id`
/// wherever the one of `#v` is found; a `die` addressed to one element finds
/// that layer.
pub open spec fn players_ready(ls: Seq<(String, Layer)>, id: Seq<char>, act: Seq<char>, v: Seq<char>) -> bool {
    element_result(id, v) ==> {
        &&& act == "clone"@ ==> players_window(ls, v) is Some && (found(players_window(ls, v)) ==> found(
            players_window(ls, id),
        ))
        &&& v == "die"@ && id != seq!['*'] ==> players_window(ls, id) is Some
    }
}

/// What an element result asks of the players before anything else: a
/// `clone` copies the file of window `#v` into window `#id`, a `die` restarts
/// the player of window `#id`, or all of them for `*`.
pub open spec fn lead_asks(ls: Seq<(String, Layer)>, id: Seq<char>, act: Seq<char>, v: Seq<char>) -> Seq<ScriptEffect> {
    let c = if act == "clone"@ {
        match (players_window(ls, v), players_window(ls, id)) {
            (Some(Some(f)), Some(Some(t))) => seq![ScriptEffect::Clone(f, t)],
            _ => Seq::empty(),
        }
    } else {
        Seq::empty()
    };
    let d = if v == "die"@ {
        if id == seq!['*'] {
            seq![ScriptEffect::Rebuild]
        } else {
            match players_window(ls, id) {
                Some(Some(w)) => seq![ScriptEffect::Die(w)],
                _ => Seq::empty(),
            }
        }
    } else {
        Seq::empty()
    };
    c + d
}

/// No layer has a visual that answers to `#id`.
pub open spec fn no_visual(ls: Seq<(String, Layer)>, id: Seq<char>) -> bool {
    forall|k: int| 0 <= k < ls.len() ==> (#[trigger] window_in(ls[k].1, id)) is None
}

/// What applying a result addressed to an element does (see
/// `apply_script_result`), from layers `ls0`, globals `g0` and connection
/// `c0` to `ls1`, `g1` and `c1`, with answer `r`.
#[verifier::opaque]
pub open spec fn element_done(
    drw: Drawable,
    rules: Map<Seq<char>, Map<Seq<char>, Seq<char>>>,
    metrics: Seq<(char, u16, u16)>,
    ls0: Seq<(String, Layer)>,
    ls1: Seq<(String, Layer)>,
    g0: StrMap,
    g1: StrMap,
    c0: Xcb,
    c1: Xcb,
    id: Seq<char>,
    act: Seq<char>,
    v: Seq<char>,
    r: Option<Vec<ScriptEffect>>,
) -> bool {
    &&& (element_result(id, v) && act == "clone"@ && players_window(ls0, v) == Some(None::<u32>) ==> r is Some
                && (r->0)@.len() == 0 && ls1 == ls0 && g1 == g0 && c1 == c0)
    &&& (element_result(id, v) && clone_passes(ls0, id, act, v) && r is Some ==> lead_asks(
                ls0,
                id,
                act,
                v,
            ).is_prefix_of((r->0)@))
    &&& (element_result(id, v) && r is Some ==> forall|k: int|
                0 <= k < ls0.len() && (#[trigger] window_in(ls0[k].1, id)) is None ==> ls1[k]
                    == ls0[k])
    &&& (element_result(id, v) && clone_passes(ls0, id, act, v) ==> match layers_step(
                rules,
                metrics,
                drw,
                c0.depth,
                layer_models(ls0),
                g0.map(),
                c0.next_id,
                id,
                act,
                v,
            ) {
                None => r is None,
                Some(o) => r is Some && asks((r->0)@) == asks(lead_asks(ls0, id, act, v)) + o.controls + o.evals
                    && layer_models(ls1) == o.models && g1.map() == o.globals
                    && c1.pending@ == c0.pending@ + o.queued && c1.next_id == o.next_id,
            })
    &&& (element_result(id, v) && clone_passes(ls0, id, act, v) && no_visual(ls0, id) ==> r is Some && (r->0)@
                == lead_asks(ls0, id, act, v) && ls1 == ls0 && g1 == g0 && c1 == c0)
}

impl DomApp {
    /// Whether result `id.act` = `v` finds in `layers` what it needs of the
    /// `players` layer (see `players_ready`).
    pub fn players_ready_for(layers: &Vec<(String, Layer)>, id: &Vec<char>, act: &Vec<char>, v: &Vec<char>) -> (ok: bool)
        requires
            forall|k: int| 0 <= k < layers@.len() ==> #[trigger] view_wf(layers@[k].1.root_visual.model()),
        ensures
            ok == players_ready(layers@, id@, act@, v@),
    {
        let players = lit("players");
        proof {
            reveal_strlit("players");
            reveal_strlit("clone");
            reveal_strlit("die");
        }
        let pi = find_layer(layers, &players);
        proof {
            lemma_players_window(layers@, pi, v@);
            lemma_players_window(layers@, pi, id@);
        }
        let clone_ok = if same(act, &lit("clone")) {
            match pi {
                None => false,
                Some(i) => match window_of(&layers[i].1, v) {
                    None => true,
                    Some(_) => window_of(&layers[i].1, id).is_some(),
                },
            }
        } else {
            true
        };
        let one = id.len() == 1 && id[0] == '*';
        assert(one == (id@ == seq!['*'])) by {
            if id@ == seq!['*'] {
                assert(id@.len() == 1 && id@[0] == '*');
            }
            if one {
                assert(id@ =~= seq!['*']);
            }
        }
        let die_ok = if same(v, &lit("die")) && !one {
            pi.is_some()
        } else {
            true
        };
        let is_element = !(id.len() == 1 && id[0] == '_' && v.len() == 1 && v[0] == '?') && !same(id, &lit("app"))
            && !same(id, &lit("globals")) && !same(id, &lit("layers"));
        proof {
            reveal_strlit("app");
            reveal_strlit("globals");
            reveal_strlit("layers");
        }
        assert(is_element == element_result(id@, v@)) by {
            if id@ == seq!['_'] && v@ == seq!['?'] {
                assert(id@.len() == 1 && id@[0] == '_' && v@.len() == 1 && v@[0] == '?');
            }
            if id.len() == 1 && id[0] == '_' && v.len() == 1 && v[0] == '?' {
                assert(id@ =~= seq!['_'] && v@ =~= seq!['?']);
            }
        }
        !is_element || (clone_ok && die_ok)
    }

    #[verifier::rlimit(100)]
    #[verifier::spinoff_prover]
    /// Applies the script result `id.act` = `v`: `_` = `?` does nothing;
    /// `app.control` = `quit` quits; `globals.<act>` sets a global and asks
    /// for a fresh evaluation when it changed; `layers.<name>` asks for every
    /// layer to be rebuilt (layer `name` from `<v>.view`), the players to be
    /// rebuilt and each layer's `loaded` event; for any other element,
    /// `clone` asks to clone a player of the `players` layer, `die` to
    /// restart one (or, for `*`, to rebuild them all), and the result is
    /// applied to the first visual answering to `#id` in each layer that has
    /// one (see `visual_result`), the evaluations asked for coming last.
    /// Nothing where a value cannot be read. A result that needs the
    /// `players` layer must find what it needs there (see `players_ready`,
    /// which `players_ready_for` tests).
    pub fn apply_script_result(
        &self,
        globals: &mut StrMap,
        layers: &mut Vec<(String, Layer)>,
        style: &Style,
        ctx: &mut Xcb,
        glyphs: &Glyphs,
        id: &Vec<char>,
        act: &Vec<char>,
        v: &Vec<char>,
    ) -> (r: Option<Vec<ScriptEffect>>)
        requires
            old(globals).wf(),
            style.wf(),
            glyphs.wf(),
            forall|k: int| 0 <= k < old(layers)@.len() ==> #[trigger] view_wf(old(layers)@[k].1.root_visual.model()),
            players_ready(old(layers)@, id@, act@, v@),
        ensures
            final(globals).wf(),
            final(layers)@.len() == old(layers)@.len(),
            forall|k: int| 0 <= k < old(layers)@.len() ==> (#[trigger] final(layers)@[k]).0 == old(layers)@[k].0
                && final(layers)@[k].1.root == old(layers)@[k].1.root && final(layers)@[k].1.file == old(layers)@[k].1.file,
            r is Some ==> forall|k: int| 0 <= k < final(layers)@.len() ==> #[trigger] view_wf(final(layers)@[k].1.root_visual.model()),
            final(ctx).same_setup(old(ctx)),
            old(ctx).pending@.is_prefix_of(final(ctx).pending@),
            id@ == seq!['_'] && v@ == seq!['?'] ==> r is Some && (r->0)@.len() == 0 && final(layers)@ == old(layers)@
                && *final(globals) == *old(globals) && *final(ctx) == *old(ctx),
            !(id@ == seq!['_'] && v@ == seq!['?']) && id@ == "app"@ ==> r is Some && final(layers)@ == old(layers)@
                && *final(globals) == *old(globals) && *final(ctx) == *old(ctx) && (r->0)@ == if act@ == "control"@ && v@ == "quit"@ {
                    seq![ScriptEffect::Quit]
                } else {
                    Seq::<ScriptEffect>::empty()
                },
            !(id@ == seq!['_'] && v@ == seq!['?']) && id@ == "globals"@ ==> r is Some && final(layers)@ == old(layers)@
                && *final(ctx) == *old(ctx) && final(globals).map() == old(globals).map().insert(act@, v@) && global_asks(old(globals).map(), act@, v@, (r->0)@),
            !(id@ == seq!['_'] && v@ == seq!['?']) && id@ == "layers"@ ==> r is Some && final(layers)@ == old(layers)@
                && *final(globals) == *old(globals) && *final(ctx) == *old(ctx) && layer_asks(self.layers@, act@, v@, (r->0)@),
            element_result(id@, v@) ==> element_done(
                self.drw,
                style.map(),
                glyphs.metrics@,
                old(layers)@,
                final(layers)@,
                *old(globals),
                *final(globals),
                *old(ctx),
                *final(ctx),
                id@,
                act@,
                v@,
                r,
            ),
    {
        proof {
            reveal_strlit("app");
            reveal_strlit("globals");
            reveal_strlit("layers");
        }
        assert("app"@ =~= seq!['a', 'p', 'p']);
        assert("globals"@ =~= seq!['g', 'l', 'o', 'b', 'a', 'l', 's']);
        assert("layers"@ =~= seq!['l', 'a', 'y', 'e', 'r', 's']);
        let mut ret: Vec<ScriptEffect> = Vec::new();
        if id.len() == 1 && id[0] == '_' && v.len() == 1 && v[0] == '?' {
            assert(id@ =~= seq!['_'] && v@ =~= seq!['?']);
            return Some(ret);
        }
        proof {
            if id@ == seq!['_'] && v@ == seq!['?'] {
                assert(id@[0] == '_' && v@[0] == '?');
            }
        }
        if same(id, &lit("app")) {
            if same(act, &lit("control")) && same(v, &lit("quit")) {
                ret.push(ScriptEffect::Quit);
                assert(ret@ =~= seq![ScriptEffect::Quit]);
            }
            return Some(ret);
        }
        if same(id, &lit("globals")) {
            return Some(Self::global_result(globals, act, v));
        }
        if same(id, &lit("layers")) {
            return Some(self.layers_result(act, v));
        }
        let r = self.element_apply(globals, layers, style, ctx, glyphs, id, act, v);
        proof {
            reveal(element_done);
        }
        r
    }
}


impl DomApp {
    /// A `globals.<act>` = `v` result: sets the global and asks for a fresh
    /// evaluation when it changed (see `global_asks`).
    fn global_result(globals: &mut StrMap, act: &Vec<char>, v: &Vec<char>) -> (r: Vec<ScriptEffect>)
        requires
            old(globals).wf(),
        ensures
            final(globals).wf(),
            final(globals).map() == old(globals).map().insert(act@, v@),
            global_asks(old(globals).map(), act@, v@, r@),
    {
        let mut ret: Vec<ScriptEffect> = Vec::new();
            let changed = match globals.get(act) {
                Some(cur) => !same(&chars_of(cur.as_str()), v),
                None => true,
            };
            if changed {
                if globals.contains_key(act) {
                    globals.remove(act);
                }
                globals.insert(act, v);
                ret.push(ScriptEffect::Evaluate(String::new()));
            } else {
                assert(globals.map() =~= globals.map().insert(act@, v@));
            }
        ret
    }

    /// A `layers.<act>` = `v` result (see `layer_asks`).
    fn layers_result(&self, act: &Vec<char>, v: &Vec<char>) -> (r: Vec<ScriptEffect>)
        ensures
            layer_asks(self.layers@, act@, v@, r@),
    {
        let mut ret: Vec<ScriptEffect> = Vec::new();
            let mut file = v.clone();
            push_all(&mut file, &lit(".view"));
            ret.push(ScriptEffect::ReplaceLayers(string_of(act), string_of(&file)));
            ret.push(ScriptEffect::Rebuild);
            let mut i: usize = 0;
            while i < self.layers.len()
                invariant
                    i <= self.layers@.len(),
                    ret@.len() == 2 + i,
                    ret@[0] matches ScriptEffect::ReplaceLayers(a, f) && a@ == act@ && f@ == v@ + ".view"@,
                    ret@[1] == ScriptEffect::Rebuild,
                    forall|j: int| 0 <= j < i ==> (#[trigger] ret@[2 + j] matches ScriptEffect::Evaluate(e) && e@
                        == event_call(self.layers@[j].0@, "loaded"@, "\"\""@)),
                decreases self.layers.len() - i,
            {
                let name = chars_of(self.layers[i].0.as_str());
                let e = event_script(&name, &lit("loaded"), &lit("\"\""));
                ret.push(ScriptEffect::Evaluate(e));
                i += 1;
            }
        ret
    }
}

impl DomApp {
    /// Applies a result addressed to an element (see `apply_script_result`).
    #[verifier::rlimit(100)]
    #[verifier::spinoff_prover]
    fn element_apply(
        &self,
        globals: &mut StrMap,
        layers: &mut Vec<(String, Layer)>,
        style: &Style,
        ctx: &mut Xcb,
        glyphs: &Glyphs,
        id: &Vec<char>,
        act: &Vec<char>,
        v: &Vec<char>,
    ) -> (r: Option<Vec<ScriptEffect>>)
        requires
            old(globals).wf(),
            style.wf(),
            glyphs.wf(),
            forall|k: int| 0 <= k < old(layers)@.len() ==> #[trigger] view_wf(old(layers)@[k].1.root_visual.model()),
            element_result(id@, v@),
        ensures
            final(globals).wf(),
            final(layers)@.len() == old(layers)@.len(),
            forall|k: int| 0 <= k < old(layers)@.len() ==> (#[trigger] final(layers)@[k]).0 == old(layers)@[k].0
                && final(layers)@[k].1.root == old(layers)@[k].1.root && final(layers)@[k].1.file == old(layers)@[k].1.file,
            r is Some ==> forall|k: int| 0 <= k < final(layers)@.len() ==> #[trigger] view_wf(final(layers)@[k].1.root_visual.model()),
            final(ctx).same_setup(old(ctx)),
            old(ctx).pending@.is_prefix_of(final(ctx).pending@),
            element_result(id@, v@) && act@ == "clone"@ && players_window(old(layers)@, v@) is None ==> r is None,
            element_result(id@, v@) && act@ == "clone"@ && players_window(old(layers)@, v@) == Some(None::<u32>) ==> r is Some
                && (r->0)@.len() == 0 && final(layers)@ == old(layers)@ && *final(globals) == *old(globals) && *final(ctx)
                == *old(ctx),
            element_result(id@, v@) && act@ == "clone"@ && found(players_window(old(layers)@, v@)) && !found(
                players_window(old(layers)@, id@),
            ) ==> r is None,
            element_result(id@, v@) && clone_passes(old(layers)@, id@, act@, v@) && v@ == "die"@ && id@ != seq!['*']
                && players_window(old(layers)@, id@) is None ==> r is None,
            element_result(id@, v@) && clone_passes(old(layers)@, id@, act@, v@) && r is Some ==> lead_asks(
                old(layers)@,
                id@,
                act@,
                v@,
            ).is_prefix_of((r->0)@),
            element_result(id@, v@) && r is Some ==> forall|k: int|
                0 <= k < old(layers)@.len() && (#[trigger] window_in(old(layers)@[k].1, id@)) is None ==> final(layers)@[k]
                    == old(layers)@[k],
            element_result(id@, v@) && clone_passes(old(layers)@, id@, act@, v@) && !(v@ == "die"@ && id@ != seq!['*']
                && players_window(old(layers)@, id@) is None) ==> match layers_step(
                style.map(),
                glyphs.metrics@,
                self.drw,
                old(ctx).depth,
                layer_models(old(layers)@),
                old(globals).map(),
                old(ctx).next_id,
                id@,
                act@,
                v@,
            ) {
                None => r is None,
                Some(o) => r is Some && asks((r->0)@) == asks(lead_asks(old(layers)@, id@, act@, v@)) + o.controls + o.evals
                    && layer_models(final(layers)@) == o.models && final(globals).map() == o.globals
                    && final(ctx).pending@ == old(ctx).pending@ + o.queued && final(ctx).next_id == o.next_id,
            },
            element_result(id@, v@) && clone_passes(old(layers)@, id@, act@, v@) && no_visual(old(layers)@, id@) && !(v@
                == "die"@ && id@ != seq!['*'] && players_window(old(layers)@, id@) is None) ==> r is Some && (r->0)@
                == lead_asks(old(layers)@, id@, act@, v@) && final(layers)@ == old(layers)@ && *final(globals)
                == *old(globals) && *final(ctx) == *old(ctx),
    {
        let mut ret: Vec<ScriptEffect> = Vec::new();
        let mut evals: Vec<ScriptEffect> = Vec::new();
        let players = lit("players");
        proof {
            reveal_strlit("players");
            reveal_strlit("clone");
            reveal_strlit("die");
        }
        let ghost ls_in = layers@;
        if same(act, &lit("clone")) {
            let pi = match find_layer(layers, &players) {
                Some(i) => i,
                None => {
                    proof {
                        lemma_players_window(layers@, None, v@);
                    }
                    return None;
                },
            };
            proof {
                lemma_players_window(layers@, Some(pi), v@);
                lemma_players_window(layers@, Some(pi), id@);
            }
            let from = match window_of(&layers[pi].1, v) {
                Some(w) => w,
                None => {
                    assert(ret@.len() == 0);
                    return Some(ret);
                },
            };
            let to = match window_of(&layers[pi].1, id) {
                Some(w) => w,
                None => {
                    return None;
                },
            };
            ret.push(ScriptEffect::Clone(from, to));
        }
        let ghost c_asks = ret@;
        if same(v, &lit("die")) {
            if id.len() == 1 && id[0] == '*' {
                assert(id@ =~= seq!['*']);
                ret.push(ScriptEffect::Rebuild);
            } else {
                assert(id@ != seq!['*']) by {
                    if id@ == seq!['*'] {
                        assert(id@.len() == 1 && id@[0] == '*');
                    }
                }
                let pi = match find_layer(layers, &players) {
                    Some(i) => i,
                    None => {
                        proof {
                            lemma_players_window(layers@, None, id@);
                        }
                        return None;
                    },
                };
                proof {
                    lemma_players_window(layers@, Some(pi), id@);
                }
                match window_of(&layers[pi].1, id) {
                    Some(w) => {
                        ret.push(ScriptEffect::Die(w));
                    },
                    None => {},
                }
            }
        }
        assert(ret@ =~= lead_asks(ls_in, id@, act@, v@));
        let ghost ret0 = ret@;
        let mut sel = vec!['#'];
        push_all(&mut sel, id);
        assert(sel@ =~= seq!['#'] + id@);
        let n = layers.len();
        let mut k: usize = 0;
        let ghost ls0 = layers@;
        proof {
            assert(layer_models(ls0).take(0) =~= Seq::<VisualView>::empty());
            assert(layer_models(layers@).take(0) =~= Seq::<VisualView>::empty());
            assert(evals@.len() == 0);
            assert(asks(evals@) =~= Seq::<Ask>::empty());
            assert(asks(ret@) =~= asks(ret0) + Seq::<Ask>::empty());
            assert(ctx.pending@ =~= old(ctx).pending@ + Seq::<XRequest>::empty());
        }
        while k < n
            invariant
                k <= n == layers@.len() == ls0.len(),
                ls0 == old(layers)@,
                id@ != "app"@ && id@ != "globals"@ && id@ != "layers"@,
                !(id@ == seq!['_'] && v@ == seq!['?']),
                style.wf(),
                glyphs.wf(),
                globals.wf(),
                forall|j: int| 0 <= j < n ==> #[trigger] view_wf(layers@[j].1.root_visual.model()),
                forall|j: int| 0 <= j < n ==> (#[trigger] layers@[j]).0 == ls0[j].0 && layers@[j].1.root == ls0[j].1.root
                    && layers@[j].1.file == ls0[j].1.file,
                ctx.same_setup(old(ctx)),
                old(ctx).pending@.is_prefix_of(ctx.pending@),
                sel@ == seq!['#'] + id@,
                clone_passes(ls0, id@, act@, v@),
                ret@.len() >= ret0.len(),
                forall|q: int| 0 <= q < ret0.len() ==> ret@[q] == ret0[q],
                forall|j: int| k <= j < n ==> layers@[j] == ls0[j],
                forall|j: int| 0 <= j < k && (#[trigger] window_in(ls0[j].1, id@)) is None ==> layers@[j] == ls0[j],
                (forall|j: int| 0 <= j < k ==> (#[trigger] window_in(ls0[j].1, id@)) is None) ==> ret@ == ret0
                    && evals@.len() == 0 && *globals == *old(globals) && *ctx == *old(ctx),
                layers_step(
                    style.map(),
                    glyphs.metrics@,
                    self.drw,
                    old(ctx).depth,
                    layer_models(ls0).take(k as int),
                    old(globals).map(),
                    old(ctx).next_id,
                    id@,
                    act@,
                    v@,
                ) matches Some(o) && o.models == layer_models(layers@).take(k as int) && globals.map() == o.globals
                    && ctx.pending@ == old(ctx).pending@ + o.queued && ctx.next_id == o.next_id && asks(ret@) == asks(
                    ret0,
                ) + o.controls && asks(evals@) == o.evals,
            decreases n - k,
        {
            let ghost ms0 = layer_models(ls0);
            let ghost lb = layers@;
            proof {
                lemma_layers_step_next(
                    style.map(),
                    glyphs.metrics@,
                    self.drw,
                    old(ctx).depth,
                    ms0,
                    k as int,
                    old(globals).map(),
                    old(ctx).next_id,
                    id@,
                    act@,
                    v@,
                );
                assert(ms0[k as int] == ls0[k as int].1.root_visual.model());
                assert(lb[k as int] == ls0[k as int]);
            }
            if !Self::layer_result(&mut layers[k].1, &sel, ctx, style, glyphs, self.drw, globals, id, act, v, &mut ret, &mut evals) {
                proof {
                    lemma_layers_step_prefix(
                        style.map(),
                        glyphs.metrics@,
                        self.drw,
                        old(ctx).depth,
                        ms0,
                        k + 1,
                        old(globals).map(),
                        old(ctx).next_id,
                        id@,
                        act@,
                        v@,
                    );
                }
                return None;
            }
            proof {
                let o = layers_step(
                    style.map(),
                    glyphs.metrics@,
                    self.drw,
                    old(ctx).depth,
                    ms0.take(k as int),
                    old(globals).map(),
                    old(ctx).next_id,
                    id@,
                    act@,
                    v@,
                )->0;
                let d = one_layer(
                    style.map(),
                    glyphs.metrics@,
                    self.drw,
                    old(ctx).depth,
                    ls0[k as int].1.root_visual.model(),
                    o.globals,
                    o.next_id,
                    id@,
                    act@,
                    v@,
                )->0;
                assert(layer_models(layers@).take(k + 1) =~= o.models + d.models);
                assert(ctx.pending@ =~= old(ctx).pending@ + (o.queued + d.queued));
                assert(asks(ret@) =~= asks(ret0) + (o.controls + d.controls));
                assert(asks(evals@) =~= o.evals + d.evals);
                if window_in(ls0[k as int].1, id@) is None {
                    assert(layers@[k as int] == ls0[k as int]);
                }
            }
            k += 1;
        }
        proof {
            if no_visual(ls_in, id@) {
                assert forall|j: int| 0 <= j < n implies (#[trigger] window_in(ls0[j].1, id@)) is None by {
                    assert(window_in(ls_in[j].1, id@) is None);
                }
                assert forall|j: int| 0 <= j < n implies #[trigger] layers@[j] == ls0[j] by {
                    assert(window_in(ls0[j].1, id@) is None);
                }
                assert(layers@ =~= ls0);
            }
        }
        let ghost rb = ret@;
        let ghost eb = evals@;
        proof {
            assert(layer_models(ls0).take(n as int) =~= layer_models(ls0));
            assert(layer_models(layers@).take(n as int) =~= layer_models(layers@));
            assert(asks(ret0) == asks(lead_asks(ls_in, id@, act@, v@)));
        }
        ret.append(&mut evals);
        assert(asks(ret@) =~= asks(rb) + asks(eb));
        assert(ret0.is_prefix_of(ret@)) by {
            assert(ret0 =~= ret@.subrange(0, ret0.len() as int));
        }
        Some(ret)
    }
}

/// What a `globals.<act>` = `v` result asks for: a fresh evaluation when the
/// global changes.
pub open spec fn global_asks(g: Map<Seq<char>, Seq<char>>, act: Seq<char>, v: Seq<char>, es: Seq<ScriptEffect>) -> bool {
    if g.dom().contains(act) && g[act] == v {
        es.len() == 0
    } else {
        es.len() == 1 && (es[0] matches ScriptEffect::Evaluate(e) && e@.len() == 0)
    }
}

/// What a `layers.<act>` = `v` result asks for: rebuild every layer (layer
/// `act` from `<v>.view`), rebuild the players, then report each layer of
/// `dls` loaded, in order.
pub open spec fn layer_asks(dls: Seq<(String, DomLayer)>, act: Seq<char>, v: Seq<char>, es: Seq<ScriptEffect>) -> bool {
    &&& es.len() == 2 + dls.len()
    &&& es[0] matches ScriptEffect::ReplaceLayers(a, f) && a@ == act && f@ == v + ".view"@
    &&& es[1] == ScriptEffect::Rebuild
    &&& forall|j: int| 0 <= j < dls.len() ==> (#[trigger] es[2 + j] matches ScriptEffect::Evaluate(e) && e@
        == event_call(dls[j].0@, "loaded"@, "\"\""@))
}

// ---------------------------------------------------------------------------
// Clicks, double clicks and long presses
// ---------------------------------------------------------------------------

/// How long (ns) a second release may follow the first to make a double
/// click, and after which a lone release is reported.
pub const DBL_CLICK_NS: u64 = 250_000_000;

/// How long (ns) a press must be held to make a long press.
pub const LONG_PRESS_NS: u64 = 500_000_000;

/// A button's last press or release: button, time (ns) and element id.
pub type Mark = (u8, u64, String);

/// The marks as plain values.
pub open spec fn marks(ms: Seq<Mark>) -> Seq<(u8, u64, Seq<char>)> {
    Seq::new(ms.len(), |i: int| (ms[i].0, ms[i].1, ms[i].2@))
}

/// The mark of button `b`, if any (buttons occur once).
pub open spec fn mark_of(ms: Seq<(u8, u64, Seq<char>)>, b: u8) -> Option<(u64, Seq<char>)> {
    if exists|i: int| 0 <= i < ms.len() && ms[i].0 == b {
        let i = choose|i: int| 0 <= i < ms.len() && ms[i].0 == b;
        Some((ms[i].1, ms[i].2))
    } else {
        None
    }
}

/// No button has two marks.
pub open spec fn marks_distinct(ms: Seq<(u8, u64, Seq<char>)>) -> bool {
    forall|i: int, j: int| 0 <= i < ms.len() && 0 <= j < ms.len() && i != j ==> ms[i].0 != ms[j].0
}

/// The marks without button `b`'s, the others in order.
pub open spec fn without(ms: Seq<(u8, u64, Seq<char>)>, b: u8) -> Seq<(u8, u64, Seq<char>)>
    decreases ms.len(),
{
    if ms.len() == 0 {
        ms
    } else if ms.last().0 != b {
        without(ms.drop_last(), b).push(ms.last())
    } else {
        without(ms.drop_last(), b)
    }
}

/// The clicks in progress: the last release and the last press of each
/// button, and a button whose next release is to be ignored (255 for none).
pub struct ClickTracker {
    pub ups: Vec<Mark>,
    pub downs: Vec<Mark>,
    pub ignore_next: u8,
}

/// The call that reports a button event: `on_event(eve,"<id>","<event>",0,0,<button>)`.
pub open spec fn button_call(id: Seq<char>, event: Seq<char>, b: u8) -> Seq<char> {
    event_call(id, event, crate::numbers::digits_of(b as nat, 10))
}

/// The reports a release `b` at `now` for element `id` makes, given the last
/// releases `ups`: a double click when the last release of `b` was less
/// than 250 ms ago.
pub open spec fn release_report(ups: Seq<(u8, u64, Seq<char>)>, b: u8, now: u64, id: Seq<char>) -> Option<Seq<char>> {
    match mark_of(ups, b) {
        Some(m) => if (now - m.0 < DBL_CLICK_NS && now >= m.0) || now < m.0 {
            Some(button_call(id, "b-dbl"@, b))
        } else {
            None
        },
        None => None,
    }
}

impl ClickTracker {
    /// No clicks in progress.
    pub fn new() -> (t: ClickTracker)
        ensures
            t.ups@.len() == 0,
            t.downs@.len() == 0,
            t.ignore_next == 255,
    {
        ClickTracker { ups: Vec::new(), downs: Vec::new(), ignore_next: 255 }
    }

    /// Each button has at most one release and one press mark.
    pub open spec fn wf(&self) -> bool {
        marks_distinct(marks(self.ups@)) && marks_distinct(marks(self.downs@))
    }

    /// The position of button `b`'s mark.
    fn pos(ms: &Vec<Mark>, b: u8) -> (r: Option<usize>)
        ensures
            match r {
                Some(i) => i < ms@.len() && ms@[i as int].0 == b,
                None => forall|i: int| 0 <= i < ms@.len() ==> ms@[i].0 != b,
            },
    {
        let mut i: usize = 0;
        while i < ms.len()
            invariant
                i <= ms@.len(),
                forall|j: int| 0 <= j < i ==> ms@[j].0 != b,
            decreases ms.len() - i,
        {
            if ms[i].0 == b {
                return Some(i);
            }
            i += 1;
        }
        None
    }

    /// Removes button `b`'s mark.
    fn clear(ms: &mut Vec<Mark>, b: u8)
        requires
            marks_distinct(marks(old(ms)@)),
        ensures
            marks(final(ms)@) == without(marks(old(ms)@), b),
            marks_distinct(marks(final(ms)@)),
    {
        let ghost m0 = marks(ms@);
        match Self::pos(ms, b) {
            Some(i) => {
                let ghost before = ms@;
                ms.remove(i);
                proof {
                    lemma_without_at(m0, b, i as int);
                    assert(marks(ms@) =~= m0.remove(i as int));
                }
            },
            None => {
                proof {
                    lemma_without_none(m0, b);
                }
                assert(marks(ms@) =~= m0);
            },
        }
    }

    /// Sets button `b`'s mark to (`t`, `id`), after the others.
    fn ensure(ms: &mut Vec<Mark>, b: u8, t: u64, id: &Vec<char>)
        requires
            marks_distinct(marks(old(ms)@)),
        ensures
            marks(final(ms)@) == without(marks(old(ms)@), b).push((b, t, id@)),
            marks_distinct(marks(final(ms)@)),
    {
        let ghost m0 = marks(ms@);
        Self::clear(ms, b);
        let ghost m1 = marks(ms@);
        ms.push((b, t, string_of(id)));
        assert(marks(ms@) =~= m1.push((b, t, id@)));
        proof {
            lemma_without_free(m0, b, t, id@);
        }
    }

    /// A release of button `b` at `now` on the element `id` (none for a
    /// choice list or a visual without an id): the first release after a
    /// long press is ignored; otherwise a release within 250 ms of the last
    /// one reports a double click and forgets both marks, any other release
    /// is marked.
    pub fn release(&mut self, b: u8, now: u64, id: Option<&Vec<char>>) -> (r: Option<String>)
        requires
            old(self).wf(),
        ensures
            final(self).wf(),
            old(self).ignore_next == b ==> r is None && final(self).ignore_next == 255 && final(self).ups@ == old(self).ups@
                && final(self).downs@ == old(self).downs@,
            old(self).ignore_next != b && id is None ==> r is None && final(self).ignore_next == old(self).ignore_next
                && final(self).ups@ == old(self).ups@ && final(self).downs@ == old(self).downs@,
            old(self).ignore_next != b && id is Some ==> final(self).ignore_next == old(self).ignore_next && match release_report(marks(old(self).ups@), b, now, id->0@) {
                Some(call) => r is Some && (r->0)@ == call && marks(final(self).ups@) == without(marks(old(self).ups@), b)
                    && marks(final(self).downs@) == without(marks(old(self).downs@), b),
                None => r is None && marks(final(self).ups@) == without(marks(old(self).ups@), b).push((b, now, id->0@))
                    && final(self).downs@ == old(self).downs@,
            },
    {
        if self.ignore_next == b {
            self.ignore_next = 255;
            return None;
        }
        let id = match id {
            Some(i) => i,
            None => {
                return None;
            },
        };
        match Self::pos(&self.ups, b) {
            Some(i) => {
                let last = self.ups[i].1;
                proof {
                    lemma_mark_at(marks(self.ups@), b, i as int);
                }
                if now.saturating_sub(last) < DBL_CLICK_NS {
                    let call = event_script(id, &lit("b-dbl"), &crate::numbers::print_uint(b as u64, 10));
                    Self::clear(&mut self.ups, b);
                    Self::clear(&mut self.downs, b);
                    return Some(call);
                }
                Self::ensure(&mut self.ups, b, now, id);
                None
            },
            None => {
                proof {
                    lemma_mark_none(marks(self.ups@), b);
                }
                Self::ensure(&mut self.ups, b, now, id);
                None
            },
        }
    }

    /// A press of button `b` at `now` on the element `id`: the first button's
    /// presses on elements with an id are marked.
    pub fn press(&mut self, b: u8, now: u64, id: Option<&Vec<char>>)
        requires
            old(self).wf(),
        ensures
            final(self).wf(),
            final(self).ups@ == old(self).ups@,
            final(self).ignore_next == old(self).ignore_next,
            b == 1 && id is Some ==> marks(final(self).downs@) == without(marks(old(self).downs@), b).push((b, now, id->0@)),
            !(b == 1 && id is Some) ==> final(self).downs@ == old(self).downs@,
    {
        if b == 1 {
            match id {
                Some(i) => Self::ensure(&mut self.downs, b, now, i),
                None => {},
            }
        }
    }
}

/// The state of the clicks in progress while expiring: releases, presses,
/// the reports made, and the button whose next release is ignored.
pub type ClickState = (Seq<(u8, u64, Seq<char>)>, Seq<(u8, u64, Seq<char>)>, Seq<Seq<char>>, u8);

/// A release mark `m` older than 250 ms at `now` is reported as a single
/// release, and the button's marks are forgotten.
pub open spec fn up_step(st: ClickState, m: (u8, u64, Seq<char>), now: u64) -> ClickState {
    if now >= m.1 && now - m.1 > DBL_CLICK_NS {
        (without(st.0, m.0), without(st.1, m.0), st.2.push(button_call(m.2, "b-up"@, m.0)), st.3)
    } else {
        st
    }
}

/// A press mark `m` held more than 500 ms at `now`, not released since, is
/// reported as a long press; the button's marks are forgotten and its next
/// release ignored.
pub open spec fn down_step(st: ClickState, m: (u8, u64, Seq<char>), now: u64) -> ClickState {
    if now >= m.1 && now - m.1 > LONG_PRESS_NS && (match mark_of(st.0, m.0) {
        Some(u) => u.0 < m.1,
        None => true,
    }) {
        (without(st.0, m.0), without(st.1, m.0), st.2.push(button_call(m.2, "b-long"@, m.0)), m.0)
    } else {
        st
    }
}

/// The state after the release marks `ms` are looked at in order.
pub open spec fn up_fold(st: ClickState, ms: Seq<(u8, u64, Seq<char>)>, now: u64) -> ClickState
    decreases ms.len(),
{
    if ms.len() == 0 {
        st
    } else {
        up_step(up_fold(st, ms.drop_last(), now), ms.last(), now)
    }
}

/// The state after the press marks `ms` are looked at in order.
pub open spec fn down_fold(st: ClickState, ms: Seq<(u8, u64, Seq<char>)>, now: u64) -> ClickState
    decreases ms.len(),
{
    if ms.len() == 0 {
        st
    } else {
        down_step(down_fold(st, ms.drop_last(), now), ms.last(), now)
    }
}

/// The state after expiring at `now`: old releases first, then long presses.
pub open spec fn expired(ups: Seq<(u8, u64, Seq<char>)>, downs: Seq<(u8, u64, Seq<char>)>, ign: u8, now: u64) -> ClickState {
    let a = up_fold((ups, downs, Seq::empty(), ign), ups, now);
    down_fold(a, a.1, now)
}

impl ClickTracker {
    /// Reports, at `now`, the releases older than 250 ms (single clicks) and
    /// then the presses held longer than 500 ms and not released since (long
    /// presses), forgetting their marks; a long press makes the button's next
    /// release ignored (see `expired`).
    pub fn expire(&mut self, now: u64) -> (calls: Vec<String>)
        requires
            old(self).wf(),
        ensures
            final(self).wf(),
            (marks(final(self).ups@), marks(final(self).downs@), calls.deep_view(), final(self).ignore_next)
                == expired(marks(old(self).ups@), marks(old(self).downs@), old(self).ignore_next, now),
    {
        let mut calls: Vec<String> = Vec::new();
        let ghost u0 = marks(self.ups@);
        let ghost d0 = marks(self.downs@);
        let snapshot = Self::copy_marks(&self.ups);
        let mut i: usize = 0;
        assert(u0.take(0) =~= Seq::<(u8, u64, Seq<char>)>::empty());
        while i < snapshot.len()
            invariant
                i <= snapshot@.len(),
                marks(snapshot@) == u0,
                marks_distinct(marks(self.ups@)),
                marks_distinct(marks(self.downs@)),
                self.ignore_next == old(self).ignore_next,
                (marks(self.ups@), marks(self.downs@), calls.deep_view(), self.ignore_next) == up_fold(
                    (u0, d0, Seq::empty(), old(self).ignore_next),
                    u0.take(i as int),
                    now,
                ),
            decreases snapshot.len() - i,
        {
            assert(u0.take(i + 1).drop_last() =~= u0.take(i as int));
            assert(u0.take(i + 1).last() == u0[i as int]);
            let b = snapshot[i].0;
            let t = snapshot[i].1;
            if now >= t && now - t > DBL_CLICK_NS {
                let id = chars_of(snapshot[i].2.as_str());
                let call = event_script(&id, &lit("b-up"), &crate::numbers::print_uint(b as u64, 10));
                Self::clear(&mut self.ups, b);
                Self::clear(&mut self.downs, b);
                let ghost before = calls.deep_view();
                calls.push(call);
                assert(calls.deep_view() =~= before.push(call@));
            }
            i += 1;
        }
        assert(u0.take(i as int) =~= u0);
        let ghost a = (marks(self.ups@), marks(self.downs@), calls.deep_view(), self.ignore_next);
        let downs = Self::copy_marks(&self.downs);
        let ghost dm = marks(downs@);
        let mut j: usize = 0;
        assert(dm.take(0) =~= Seq::<(u8, u64, Seq<char>)>::empty());
        while j < downs.len()
            invariant
                j <= downs@.len(),
                marks(downs@) == dm,
                dm == a.1,
                marks_distinct(marks(self.ups@)),
                marks_distinct(marks(self.downs@)),
                (marks(self.ups@), marks(self.downs@), calls.deep_view(), self.ignore_next) == down_fold(a, dm.take(j as int), now),
            decreases downs.len() - j,
        {
            assert(dm.take(j + 1).drop_last() =~= dm.take(j as int));
            assert(dm.take(j + 1).last() == dm[j as int]);
            let b = downs[j].0;
            let t = downs[j].1;
            if now >= t && now - t > LONG_PRESS_NS {
                let fresh = match Self::pos(&self.ups, b) {
                    Some(k) => {
                        proof {
                            lemma_mark_at(marks(self.ups@), b, k as int);
                        }
                        self.ups[k].1 < t
                    },
                    None => {
                        proof {
                            lemma_mark_none(marks(self.ups@), b);
                        }
                        true
                    },
                };
                if fresh {
                    let id = chars_of(downs[j].2.as_str());
                    let call = event_script(&id, &lit("b-long"), &crate::numbers::print_uint(b as u64, 10));
                    Self::clear(&mut self.ups, b);
                    Self::clear(&mut self.downs, b);
                    let ghost before = calls.deep_view();
                    calls.push(call);
                    assert(calls.deep_view() =~= before.push(call@));
                    self.ignore_next = b;
                }
            }
            j += 1;
        }
        assert(dm.take(j as int) =~= dm);
        calls
    }

    /// A copy of the marks.
    fn copy_marks(ms: &Vec<Mark>) -> (r: Vec<Mark>)
        ensures
            marks(r@) == marks(ms@),
    {
        let mut r: Vec<Mark> = Vec::new();
        let mut i: usize = 0;
        while i < ms.len()
            invariant
                i <= ms@.len(),
                r@.len() == i,
                marks(r@) == marks(ms@).take(i as int),
            decreases ms.len() - i,
        {
            let ghost before = r@;
            r.push((ms[i].0, ms[i].1, string_of(&chars_of(ms[i].2.as_str()))));
            assert forall|k: int| 0 <= k < i + 1 implies #[trigger] marks(r@)[k] == marks(ms@).take(i + 1)[k] by {
                if k < i {
                    assert(r@[k] == before[k]);
                    assert(marks(before)[k] == marks(ms@).take(i as int)[k]);
                }
            }
            assert(marks(r@) =~= marks(ms@).take(i + 1));
            i += 1;
        }
        assert(marks(ms@).take(i as int) =~= marks(ms@));
        r
    }
}

// ---------------------------------------------------------------------------
// Media decisions
// ---------------------------------------------------------------------------

/// The value of global or attribute `k`, or `def`.
pub open spec fn value_or(m: Map<Seq<char>, Seq<char>>, k: Seq<char>, def: Seq<char>) -> Seq<char> {
    if m.dom().contains(k) {
        m[k]
    } else {
        def
    }
}

/// After a media ends, the full-screen player (`qfull`) of an unwatched
/// show at the position it last recorded moves the show's play position on:
/// nothing to do (`Some(None)`), the settings file (the show) and the new
/// position to store in it, or nothing where the position is missing, not
/// a number, or the last one.
pub open spec fn play_advance(g: Map<Seq<char>, Seq<char>>, media_id: Seq<char>) -> Option<Option<(Seq<char>, Seq<char>)>> {
    if value_or(g, "is_unwatched"@, Seq::empty()) == "true"@ && media_id == "qfull"@ && value_or(
        g,
        "play_idx"@,
        Seq::empty(),
    ) == value_or(g, "file_idx"@, "-1"@) && value_or(g, "cur_show"@, Seq::empty()) != Seq::<char>::empty() {
        if !g.dom().contains("play_idx"@) {
            None
        } else {
            match parse_i64(g["play_idx"@]) {
                Some(n) => if n < i64::MAX {
                    Some(Some((g["cur_show"@], signed_digits(n + 1))))
                } else {
                    None
                },
                None => None,
            }
        }
    } else {
        Some(None)
    }
}

/// The play position to store after a media ends (see `play_advance`).
pub fn play_next(globals: &StrMap, media_id: &Vec<char>) -> (r: Option<Option<(String, String)>>)
    requires
        globals.wf(),
    ensures
        match r {
            None => play_advance(globals.map(), media_id@) is None,
            Some(None) => play_advance(globals.map(), media_id@) == Some(None::<(Seq<char>, Seq<char>)>),
            Some(Some((f, v))) => play_advance(globals.map(), media_id@) == Some(Some((f@, v@))),
        },
{
    let blank: Vec<char> = Vec::new();
    let unwatched = globals.get_or(&lit("is_unwatched"), &blank);
    let pidx = globals.get_or(&lit("play_idx"), &blank);
    let fidx = globals.get_or(&lit("file_idx"), &lit("-1"));
    let show = globals.get_or(&lit("cur_show"), &blank);
    assert(blank@ =~= Seq::<char>::empty());
    assert(show@.len() == 0 ==> show@ =~= Seq::<char>::empty());
    if same(&unwatched, &lit("true")) && same(media_id, &lit("qfull")) && same(&pidx, &fidx) && show.len() > 0 {
        if !globals.contains_key(&lit("play_idx")) {
            return None;
        }
        match crate::numbers::parse_int(&pidx) {
            Some(n) => {
                if n < i64::MAX {
                    Some(Some((string_of(&show), string_of(&crate::numbers::print_int(n + 1)))))
                } else {
                    None
                }
            },
            None => None,
        }
    } else {
        Some(None)
    }
}

/// A media attribute flag (`use-audio`, `use-video`): true unless it reads
/// as `false`.
pub open spec fn media_flag(attrs: Map<Seq<char>, Seq<char>>, k: Seq<char>) -> bool {
    if attrs.dom().contains(k) {
        match parse_bool(attrs[k]) {
            Some(b) => b,
            None => true,
        }
    } else {
        true
    }
}

/// A media attribute flag (see `media_flag`).
pub fn media_flag_of(attrs: &StrMap, k: &Vec<char>) -> (r: bool)
    requires
        attrs.wf(),
    ensures
        r == media_flag(attrs.map(), k@),
{
    match attrs.get(k) {
        Some(v) => match crate::numbers::parse_boolean(&chars_of(v.as_str())) {
            Some(b) => b,
            None => true,
        },
        None => true,
    }
}

/// Whether a media box's content is a script to evaluate for the path
/// (it starts with `?`); nothing where the content is empty or starts
/// with a character of more than one byte.
pub open spec fn source_is_script(content: Seq<char>) -> Option<bool> {
    if content.len() == 0 || (content[0] as u32) >= 0x80 {
        None
    } else {
        Some(content[0] == '?')
    }
}

/// Whether a media box's content is a script (see `source_is_script`).
pub fn media_source(content: &Vec<char>) -> (r: Option<bool>)
    ensures
        r == source_is_script(content@),
{
    if content.len() == 0 || (content[0] as u32) >= 0x80 {
        None
    } else {
        Some(content[0] == '?')
    }
}

proof fn lemma_mark_at(ms: Seq<(u8, u64, Seq<char>)>, b: u8, i: int)
    requires
        marks_distinct(ms),
        0 <= i < ms.len(),
        ms[i].0 == b,
    ensures
        mark_of(ms, b) == Some((ms[i].1, ms[i].2)),
{
    let j = choose|j: int| 0 <= j < ms.len() && ms[j].0 == b;
    assert(j == i);
}

proof fn lemma_mark_none(ms: Seq<(u8, u64, Seq<char>)>, b: u8)
    requires
        forall|i: int| 0 <= i < ms.len() ==> ms[i].0 != b,
    ensures
        mark_of(ms, b) is None,
{
}

proof fn lemma_without_at(ms: Seq<(u8, u64, Seq<char>)>, b: u8, i: int)
    requires
        marks_distinct(ms),
        0 <= i < ms.len(),
        ms[i].0 == b,
    ensures
        without(ms, b) == ms.remove(i),
        marks_distinct(ms.remove(i)),
    decreases ms.len(),
{
    if i == ms.len() - 1 {
        assert forall|j: int| 0 <= j < ms.drop_last().len() implies ms.drop_last()[j].0 != b by {
            assert(ms.drop_last()[j] == ms[j]);
        }
        lemma_without_none(ms.drop_last(), b);
        assert(ms.drop_last() =~= ms.remove(i));
    } else {
        assert(ms.drop_last()[i] == ms[i]);
        assert(marks_distinct(ms.drop_last()));
        lemma_without_at(ms.drop_last(), b, i);
        assert(ms.last().0 != b);
        assert(ms.remove(i) =~= ms.drop_last().remove(i).push(ms.last()));
    }
    assert forall|a: int, c: int| 0 <= a < ms.remove(i).len() && 0 <= c < ms.remove(i).len() && a != c implies ms.remove(i)[a].0 != ms.remove(i)[c].0 by {
        let a2 = if a < i { a } else { a + 1 };
        let c2 = if c < i { c } else { c + 1 };
        assert(ms.remove(i)[a] == ms[a2]);
        assert(ms.remove(i)[c] == ms[c2]);
    }
}

proof fn lemma_without_none(ms: Seq<(u8, u64, Seq<char>)>, b: u8)
    requires
        forall|i: int| 0 <= i < ms.len() ==> ms[i].0 != b,
    ensures
        without(ms, b) == ms,
    decreases ms.len(),
{
    if ms.len() > 0 {
        assert forall|j: int| 0 <= j < ms.drop_last().len() implies ms.drop_last()[j].0 != b by {
            assert(ms.drop_last()[j] == ms[j]);
        }
        lemma_without_none(ms.drop_last(), b);
        assert(ms.drop_last().push(ms.last()) =~= ms);
    }
}

proof fn lemma_without_lacks(ms: Seq<(u8, u64, Seq<char>)>, b: u8)
    ensures
        forall|i: int| 0 <= i < without(ms, b).len() ==> without(ms, b)[i].0 != b,
    decreases ms.len(),
{
    if ms.len() > 0 {
        lemma_without_lacks(ms.drop_last(), b);
        let w = without(ms.drop_last(), b);
        assert forall|i: int| 0 <= i < without(ms, b).len() implies without(ms, b)[i].0 != b by {
            if ms.last().0 != b && i == w.len() {
                assert(without(ms, b)[i] == ms.last());
            } else {
                assert(without(ms, b)[i] == w[i]);
            }
        }
    }
}

proof fn lemma_without_free(m0: Seq<(u8, u64, Seq<char>)>, b: u8, t: u64, id: Seq<char>)
    requires
        marks_distinct(without(m0, b)),
    ensures
        marks_distinct(without(m0, b).push((b, t, id))),
{
    lemma_without_lacks(m0, b);
}

/// Two releases of a button on an element less than 250 ms apart make a
/// double click: after a release is marked, the next one within the
/// interval is reported as `b-dbl`.
pub proof fn law_double_click(
    ups: Seq<(u8, u64, Seq<char>)>,
    b: u8,
    t1: u64,
    t2: u64,
    id1: Seq<char>,
    id2: Seq<char>,
)
    requires
        marks_distinct(ups),
        t1 <= t2,
        t2 - t1 < DBL_CLICK_NS,
    ensures
        release_report(without(ups, b).push((b, t1, id1)), b, t2, id2) == Some(button_call(id2, "b-dbl"@, b)),
{
    lemma_without_distinct(ups, b);
    lemma_without_free(ups, b, t1, id1);
    let ms = without(ups, b).push((b, t1, id1));
    lemma_mark_at(ms, b, ms.len() - 1);
}

/// A release is a double click only after an earlier marked release: the
/// first release of a button is only marked.
pub proof fn law_first_release_marked(ups: Seq<(u8, u64, Seq<char>)>, b: u8, now: u64, id: Seq<char>)
    requires
        forall|i: int| 0 <= i < ups.len() ==> ups[i].0 != b,
    ensures
        release_report(ups, b, now, id) is None,
{
    lemma_mark_none(ups, b);
}

/// A reported long press makes the button's next release ignored.
pub proof fn law_long_press_ignores(st: ClickState, m: (u8, u64, Seq<char>), now: u64)
    requires
        down_step(st, m, now).2.len() > st.2.len(),
    ensures
        down_step(st, m, now).3 == m.0,
{
}

proof fn lemma_without_distinct(ms: Seq<(u8, u64, Seq<char>)>, b: u8)
    requires
        marks_distinct(ms),
    ensures
        marks_distinct(without(ms, b)),
    decreases ms.len(),
{
    if ms.len() > 0 {
        assert(marks_distinct(ms.drop_last()));
        lemma_without_distinct(ms.drop_last(), b);
        lemma_without_members(ms.drop_last(), b);
        let w = without(ms.drop_last(), b);
        if ms.last().0 != b {
            assert forall|i: int| 0 <= i < w.len() implies w[i].0 != ms.last().0 by {
                let j = choose|j: int| 0 <= j < ms.drop_last().len() && ms.drop_last()[j] == w[i];
                assert(ms[j] == w[i]);
            }
        }
    }
}

proof fn lemma_without_members(ms: Seq<(u8, u64, Seq<char>)>, b: u8)
    ensures
        forall|i: int| 0 <= i < without(ms, b).len() ==> exists|j: int| 0 <= j < ms.len() && ms[j] == #[trigger] without(ms, b)[i],
    decreases ms.len(),
{
    if ms.len() > 0 {
        lemma_without_members(ms.drop_last(), b);
        let w = without(ms.drop_last(), b);
        assert forall|i: int| 0 <= i < without(ms, b).len() implies exists|j: int| 0 <= j < ms.len() && ms[j] == #[trigger] without(ms, b)[i] by {
            if ms.last().0 != b && i == w.len() {
                assert(ms[ms.len() - 1] == without(ms, b)[i]);
            } else {
                assert(without(ms, b)[i] == w[i]);
                let j = choose|j: int| 0 <= j < ms.drop_last().len() && ms.drop_last()[j] == w[i];
                assert(ms[j] == w[i]);
            }
        }
    }
}

proof fn lemma_replace_tail(a: Seq<char>, sp: Seq<char>, r: Seq<char>)
    requires
        sp.len() > 0,
        forall|i: int| 0 <= i < a.len() ==> !crate::text::occurs_at(a + sp, sp, i),
    ensures
        crate::text::replace_all(a + sp, sp, r) == a + r,
    decreases a.len(),
{
    let x = a + sp;
    if a.len() == 0 {
        assert(x =~= sp);
        assert(x.subrange(0, sp.len() as int) =~= sp);
        assert(x.skip(sp.len() as int) =~= Seq::<char>::empty());
        assert(crate::text::replace_all(Seq::<char>::empty(), sp, r) == Seq::<char>::empty());
        assert(crate::text::replace_all(x, sp, r) == r + crate::text::replace_all(x.skip(sp.len() as int), sp, r));
        assert(r + Seq::<char>::empty() =~= r);
        assert(a + r =~= r);
    } else {
        assert(!crate::text::occurs_at(x, sp, 0));
        assert(x.subrange(0, sp.len() as int) != sp) by {
            if x.subrange(0, sp.len() as int) == sp {
                assert(crate::text::occurs_at(x, sp, 0));
            }
        }
        let a1 = a.skip(1);
        assert(x.skip(1) =~= a1 + sp);
        assert forall|i: int| 0 <= i < a1.len() implies !crate::text::occurs_at(a1 + sp, sp, i) by {
            assert(!crate::text::occurs_at(x, sp, i + 1));
            if crate::text::occurs_at(a1 + sp, sp, i) {
                assert forall|j: int| 0 <= j < sp.len() implies x[i + 1 + j] == sp[j] by {
                    assert(x[i + 1 + j] == (a1 + sp)[i + j]);
                }
                assert(x.subrange(i + 1, i + 1 + sp.len()) =~= (a1 + sp).subrange(i, i + sp.len()));
            }
        }
        lemma_replace_tail(a1, sp, r);
        assert(x.len() >= sp.len());
        assert(crate::text::replace_all(x, sp, r) == seq![x[0]] + crate::text::replace_all(x.skip(1), sp, r));
        assert(seq![x[0]] + (a1 + r) =~= a + r);
    }
}

/// Picking a choice that is not selected and then picking it again gives
/// back the selection it started from.
pub proof fn law_toggle_undo(ss: Seq<char>, cc: Seq<char>)
    requires
        cc.len() > 0,
        forall|i: int| 0 <= i < cc.len() ==> cc[i] != ':',
        !crate::text::contains(seq![':'] + ss + seq![':'], seq![':'] + cc + seq![':']),
    ensures
        toggled(toggled(ss, cc), cc) == ss,
{
    let sp = seq![':'] + cc + seq![':'];
    if ss.len() == 0 {
        let sh0 = seq![':'] + cc + seq![':'];
        assert(crate::text::occurs_at(sh0, sp, 0)) by {
            assert(sh0.subrange(0, sp.len() as int) =~= sp);
        }
        lemma_replace_tail(Seq::<char>::empty(), sp, seq![':']);
        assert(Seq::<char>::empty() + sp =~= sh0);
        assert(Seq::<char>::empty() + seq![':'] =~= seq![':']);
    } else {
        let a = seq![':'] + ss;
        let sh0 = a + seq![':'];
        assert(sh0 =~= seq![':'] + ss + seq![':']);
        let t1 = toggled(ss, cc);
        let sh = sh0 + cc + seq![':'];
        assert(sh.len() >= 3);
        assert(sh != seq![':']);
        assert(t1 =~= sh.subrange(1, sh.len() - 1));
        let x = seq![':'] + t1 + seq![':'];
        assert(x =~= a + sp);
        assert forall|i: int| 0 <= i < a.len() implies !crate::text::occurs_at(a + sp, sp, i) by {
            if crate::text::occurs_at(a + sp, sp, i) {
                if i + sp.len() <= a.len() + 1 {
                    assert forall|j: int| 0 <= j < sp.len() implies sh0[i + j] == sp[j] by {
                        assert((a + sp)[i + j] == sp[j]);
                        if i + j < a.len() {
                            assert(sh0[i + j] == a[i + j]);
                        } else {
                            assert(i + j == a.len());
                            assert(sh0[i + j] == ':');
                            assert((a + sp)[i + j] == sp[0]);
                        }
                    }
                    assert(crate::text::occurs_at(sh0, sp, i)) by {
                        assert(sh0.subrange(i, i + sp.len()) =~= sp);
                    }
                } else {
                    let off = a.len() - i;
                    assert(1 <= off < sp.len() - 1);
                    assert((a + sp)[i + off] == sp[0]);
                    assert((a + sp)[i + off] == sp[off]);
                    assert(sp[off] == cc[off - 1]);
                }
            }
        }
        assert(crate::text::occurs_at(x, sp, a.len() as int)) by {
            assert(x.subrange(a.len() as int, (a.len() + sp.len()) as int) =~= sp);
        }
        lemma_replace_tail(a, sp, seq![':']);
        assert(a + seq![':'] =~= sh0);
        assert(sh0.subrange(1, sh0.len() - 1) =~= ss);
    }
}

} // verus!
