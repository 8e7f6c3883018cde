//! The motion protocol client: command templates with `{name}`
//! substitution, the mirrored physical state, and the request each
//! hardware operation puts on the serial line.

use vstd::prelude::*;

use crate::api_objects::PhysicalState;
use crate::error::ErrorType;
use crate::error::OdysseyError;
use crate::text::is_word_byte;
use crate::text::mm_bytes;
use crate::text::spec_mm_bytes;
use crate::vars::VarMap;
use crate::vars::spec_lookup;

verus! {

/// First index at or past `i` whose byte is not a word byte (or the end).
pub open spec fn spec_word_end(t: Seq<u8>, i: int) -> int
    decreases t.len() - i,
    when 0 <= i <= t.len()
{
    if i >= t.len() || !is_word_byte(t[i]) {
        i
    } else {
        spec_word_end(t, i + 1)
    }
}

pub proof fn lemma_word_end_bounds(t: Seq<u8>, i: int)
    requires
        0 <= i <= t.len(),
    ensures
        i <= spec_word_end(t, i) <= t.len(),
        forall|j: int| i <= j < spec_word_end(t, i) ==> is_word_byte(#[trigger] t[j]),
        spec_word_end(t, i) < t.len() ==> !is_word_byte(t[spec_word_end(t, i)]),
    decreases t.len() - i,
{
    if i < t.len() && is_word_byte(t[i]) {
        lemma_word_end_bounds(t, i + 1);
    }
}

/// The scan stops at the first non-word byte, so any stretch of word
/// bytes ending at one pins the value down.
proof fn lemma_word_end_char(t: Seq<u8>, i: int, e: int)
    requires
        0 <= i <= e <= t.len(),
        forall|j: int| i <= j < e ==> is_word_byte(#[trigger] t[j]),
        e < t.len() ==> !is_word_byte(t[e]),
    ensures
        spec_word_end(t, i) == e,
    decreases e - i,
{
    if i < e {
        lemma_word_end_char(t, i + 1, e);
    }
}

/// Prepends `prefix` to a substitution result, failures passing through.
pub open spec fn opt_append(prefix: Seq<u8>, rest: Option<Seq<u8>>) -> Option<Seq<u8>> {
    match rest {
        Option::None => Option::None,
        Option::Some(r) => Option::Some(prefix + r),
    }
}

/// The substituted form of `t` from position `p` on: a `{word}` token
/// whose word is bound becomes its value, one bound to nothing makes the
/// whole substitution fail, and every other byte (a brace without a
/// matching close included) is copied through.
pub open spec fn spec_subst_from(t: Seq<u8>, vars: Seq<(Seq<u8>, Seq<u8>)>, p: int) -> Option<
    Seq<u8>,
>
    decreases t.len() - p,
    when 0 <= p <= t.len()
    via spec_subst_from_dec
{
    if p >= t.len() {
        Option::Some(Seq::empty())
    } else if t[p] == 123 {
        let e = spec_word_end(t, p + 1);
        if e < t.len() && t[e] == 125 {
            match spec_lookup(vars, t.subrange(p + 1, e)) {
                Option::Some(v) => opt_append(v, spec_subst_from(t, vars, e + 1)),
                Option::None => Option::None,
            }
        } else {
            opt_append(seq![t[p]], spec_subst_from(t, vars, p + 1))
        }
    } else {
        opt_append(seq![t[p]], spec_subst_from(t, vars, p + 1))
    }
}

#[via_fn]
proof fn spec_subst_from_dec(t: Seq<u8>, vars: Seq<(Seq<u8>, Seq<u8>)>, p: int) {
    if 0 <= p < t.len() {
        lemma_word_end_bounds(t, p + 1);
    }
}

/// The substituted form of a whole template, or `None` when some token
/// is unbound.
pub open spec fn spec_substitute(t: Seq<u8>, vars: Seq<(Seq<u8>, Seq<u8>)>) -> Option<Seq<u8>> {
    spec_subst_from(t, vars, 0)
}

/// Whether every `{word}` token of `t` from `p` on is bound in `vars`.
pub open spec fn tokens_bound_from(t: Seq<u8>, vars: Seq<(Seq<u8>, Seq<u8>)>, p: int) -> bool
    decreases t.len() - p,
    when 0 <= p <= t.len()
    via tokens_bound_from_dec
{
    if p >= t.len() {
        true
    } else if t[p] == 123 {
        let e = spec_word_end(t, p + 1);
        if e < t.len() && t[e] == 125 {
            spec_lookup(vars, t.subrange(p + 1, e)) is Some && tokens_bound_from(t, vars, e + 1)
        } else {
            tokens_bound_from(t, vars, p + 1)
        }
    } else {
        tokens_bound_from(t, vars, p + 1)
    }
}

#[via_fn]
proof fn tokens_bound_from_dec(t: Seq<u8>, vars: Seq<(Seq<u8>, Seq<u8>)>, p: int) {
    if 0 <= p < t.len() {
        lemma_word_end_bounds(t, p + 1);
    }
}

/// Law (substitution totality): substituting a template succeeds exactly
/// when every `{word}` token it holds is bound in the variable map; so a
/// template whose tokens are all populated before its step never fails.
pub proof fn lemma_substitution_total(t: Seq<u8>, vars: Seq<(Seq<u8>, Seq<u8>)>, p: int)
    requires
        0 <= p <= t.len(),
    ensures
        spec_subst_from(t, vars, p) is Some <==> tokens_bound_from(t, vars, p),
    decreases t.len() - p,
{
    if p < t.len() {
        if t[p] == 123 {
            let e = spec_word_end(t, p + 1);
            lemma_word_end_bounds(t, p + 1);
            if e < t.len() && t[e] == 125 {
                lemma_substitution_total(t, vars, e + 1);
            } else {
                lemma_substitution_total(t, vars, p + 1);
            }
        } else {
            lemma_substitution_total(t, vars, p + 1);
        }
    }
}

proof fn lemma_opt_append_assoc(a: Seq<u8>, b: Seq<u8>, rest: Option<Seq<u8>>)
    ensures
        opt_append(a, opt_append(b, rest)) == opt_append(a + b, rest),
{
    match rest {
        Option::None => {},
        Option::Some(r) => {
            assert(a + (b + r) =~= (a + b) + r);
        },
    }
}

/// Substitutes every `{word}` token of `template` against `vars`;
/// an unbound token is a configuration error, as using a substitution
/// in a context where it is unavailable is fatal.
pub fn substitute(template: &[u8], vars: &VarMap) -> (r: Result<Vec<u8>, OdysseyError>)
    requires
        vars.wf(),
    ensures
        match r {
            Ok(out) => spec_substitute(template@, vars@) == Some(out@),
            Err(e) => {
                &&& spec_substitute(template@, vars@) is None
                &&& e.error_type == ErrorType::ConfigurationError
                &&& e.error_code == 500
            },
        },
{
    let t = template;
    let len = t.len();
    let mut out: Vec<u8> = Vec::new();
    let mut p: usize = 0;
    proof {
        assert(opt_append(out@, spec_subst_from(t@, vars@, 0)) == spec_substitute(t@, vars@)) by {
            match spec_subst_from(t@, vars@, 0) {
                Option::None => {},
                Option::Some(r) => {
                    assert(out@ + r =~= r);
                },
            }
        }
    }
    while p < len
        invariant
            0 <= p <= len,
            len == t@.len(),
            t@ == template@,
            vars.wf(),
            opt_append(out@, spec_subst_from(t@, vars@, p as int)) == spec_substitute(t@, vars@),
        decreases len - p,
    {
        if t[p] == 123 {
            let mut e: usize = p + 1;
            while e < len && (t[e] == 95 || (48 <= t[e] && t[e] <= 57) || (65 <= t[e] && t[e]
                <= 90) || (97 <= t[e] && t[e] <= 122))
                invariant
                    p + 1 <= e <= len,
                    len == t@.len(),
                    forall|j: int| p + 1 <= j < e ==> is_word_byte(#[trigger] t@[j]),
                decreases len - e,
            {
                e = e + 1;
            }
            proof {
                lemma_word_end_char(t@, p as int + 1, e as int);
            }
            if e < len && t[e] == 125 {
                let mut token: Vec<u8> = Vec::new();
                let mut m: usize = p + 1;
                while m < e
                    invariant
                        p + 1 <= m <= e,
                        e < len,
                        len == t@.len(),
                        token@ =~= t@.subrange(p as int + 1, m as int),
                    decreases e - m,
                {
                    token.push(t[m]);
                    m = m + 1;
                }
                proof {
                    assert(token@ =~= t@.subrange(p as int + 1, e as int));
                }
                match vars.get(token.as_slice()) {
                    Option::Some(v) => {
                        let ghost out_before = out@;
                        let ghost v_view = v@;
                        let vn = v.len();
                        let mut m2: usize = 0;
                        while m2 < vn
                            invariant
                                0 <= m2 <= vn,
                                vn == v_view.len(),
                                v@ == v_view,
                                out@ =~= out_before + v_view.take(m2 as int),
                            decreases vn - m2,
                        {
                            let b = v[m2];
                            out.push(b);
                            proof {
                                assert(out@ =~= out_before + v_view.take(m2 as int + 1));
                            }
                            m2 = m2 + 1;
                        }
                        proof {
                            assert(v_view.take(vn as int) =~= v_view);
                            assert(out@ =~= out_before + v_view);
                            lemma_opt_append_assoc(
                                out_before,
                                v_view,
                                spec_subst_from(t@, vars@, e as int + 1),
                            );
                        }
                        p = e + 1;
                    },
                    Option::None => {
                        return Err(
                            OdysseyError::configuration_error(
                                token,
                                500,
                            ),
                        );
                    },
                }
            } else {
                let ghost out_before = out@;
                let b = t[p];
                out.push(b);
                proof {
                    assert(out@ =~= out_before + seq![t@[p as int]]);
                    lemma_opt_append_assoc(
                        out_before,
                        seq![t@[p as int]],
                        spec_subst_from(t@, vars@, p as int + 1),
                    );
                }
                p = p + 1;
            }
        } else {
            let ghost out_before = out@;
            let b = t[p];
            out.push(b);
            proof {
                assert(out@ =~= out_before + seq![t@[p as int]]);
                lemma_opt_append_assoc(
                    out_before,
                    seq![t@[p as int]],
                    spec_subst_from(t@, vars@, p as int + 1),
                );
            }
            p = p + 1;
        }
    }
    proof {
        assert(out@ + Seq::<u8>::empty() =~= out@);
    }
    Ok(out)
}

/// The reserved identifier `z`.
pub open spec fn var_z() -> Seq<u8> {
    seq![122u8]
}

/// The reserved identifier `curing`.
pub open spec fn var_curing() -> Seq<u8> {
    seq![99u8, 117, 114, 105, 110, 103]
}

/// The reserved identifier `speed`.
pub open spec fn var_speed() -> Seq<u8> {
    seq![115u8, 112, 101, 101, 100]
}

/// The word `true`.
pub open spec fn word_true() -> Seq<u8> {
    seq![116u8, 114, 117, 101]
}

/// The word `false`.
pub open spec fn word_false() -> Seq<u8> {
    seq![102u8, 97, 108, 115, 101]
}

/// The text the `{curing}` substitution carries for a curing flag.
pub open spec fn spec_bool_bytes(b: bool) -> Seq<u8> {
    if b {
        word_true()
    } else {
        word_false()
    }
}

fn var_z_bytes() -> (r: Vec<u8>)
    ensures
        r@ == var_z(),
{
    let mut v: Vec<u8> = Vec::new();
    v.push(122);
    proof {
        assert(v@ =~= var_z());
    }
    v
}

fn var_curing_bytes() -> (r: Vec<u8>)
    ensures
        r@ == var_curing(),
{
    let mut v: Vec<u8> = Vec::new();
    v.push(99);
    v.push(117);
    v.push(114);
    v.push(105);
    v.push(110);
    v.push(103);
    proof {
        assert(v@ =~= var_curing());
    }
    v
}

fn var_speed_bytes() -> (r: Vec<u8>)
    ensures
        r@ == var_speed(),
{
    let mut v: Vec<u8> = Vec::new();
    v.push(115);
    v.push(112);
    v.push(101);
    v.push(101);
    v.push(100);
    proof {
        assert(v@ =~= var_speed());
    }
    v
}

fn bool_bytes(b: bool) -> (r: Vec<u8>)
    ensures
        r@ == spec_bool_bytes(b),
{
    let mut v: Vec<u8> = Vec::new();
    if b {
        v.push(116);
        v.push(114);
        v.push(117);
        v.push(101);
        proof {
            assert(v@ =~= word_true());
        }
    } else {
        v.push(102);
        v.push(97);
        v.push(108);
        v.push(115);
        v.push(101);
        proof {
            assert(v@ =~= word_false());
        }
    }
    v
}

/// Substitution sees the bindings only through lookups: two binding
/// lists that answer every lookup alike substitute alike.
pub proof fn lemma_subst_lookup_ext(
    t: Seq<u8>,
    v1: Seq<(Seq<u8>, Seq<u8>)>,
    v2: Seq<(Seq<u8>, Seq<u8>)>,
    p: int,
)
    requires
        0 <= p <= t.len(),
        forall|k: Seq<u8>| #[trigger] spec_lookup(v1, k) == spec_lookup(v2, k),
    ensures
        spec_subst_from(t, v1, p) == spec_subst_from(t, v2, p),
    decreases t.len() - p,
{
    if p < t.len() {
        if t[p] == 123 {
            let e = spec_word_end(t, p + 1);
            lemma_word_end_bounds(t, p + 1);
            if e < t.len() && t[e] == 125 {
                assert(spec_lookup(v1, t.subrange(p + 1, e)) == spec_lookup(
                    v2,
                    t.subrange(p + 1, e),
                ));
                lemma_subst_lookup_ext(t, v1, v2, e + 1);
            } else {
                lemma_subst_lookup_ext(t, v1, v2, p + 1);
            }
        } else {
            lemma_subst_lookup_ext(t, v1, v2, p + 1);
        }
    }
}

/// The binding list with the mirrored pose bound in front: what every
/// command is substituted against once `z` and `curing` are refreshed.
pub open spec fn spec_state_bound(
    vars: Seq<(Seq<u8>, Seq<u8>)>,
    z_microns: u32,
    curing: bool,
) -> Seq<(Seq<u8>, Seq<u8>)> {
    seq![
        (var_z(), spec_mm_bytes(z_microns as nat)),
        (var_curing(), spec_bool_bytes(curing)),
    ] + vars
}

/// The binding list a move adds on top of the caller-set bindings: the
/// firmware's millimetre-per-minute speed figure.
pub open spec fn spec_move_bindings(vars: Seq<(Seq<u8>, Seq<u8>)>, speed: u32) -> Seq<
    (Seq<u8>, Seq<u8>),
> {
    seq![(var_speed(), spec_mm_bytes((speed * 60) as nat))] + vars
}

proof fn lemma_lookup_cons(e: (Seq<u8>, Seq<u8>), rest: Seq<(Seq<u8>, Seq<u8>)>, k: Seq<u8>)
    ensures
        spec_lookup(seq![e] + rest, k) == if e.0 == k {
            Some(e.1)
        } else {
            spec_lookup(rest, k)
        },
{
    let s = seq![e] + rest;
    assert(s[0] == e);
    assert(s.skip(1) =~= rest);
}

/// What the state-bound bindings answer to each lookup.
pub proof fn lemma_state_bound_lookup(vars: Seq<(Seq<u8>, Seq<u8>)>, z_microns: u32, curing: bool)
    ensures
        forall|k: Seq<u8>| #[trigger] spec_lookup(spec_state_bound(vars, z_microns, curing), k)
            == if k == var_z() {
            Some(spec_mm_bytes(z_microns as nat))
        } else if k == var_curing() {
            Some(spec_bool_bytes(curing))
        } else {
            spec_lookup(vars, k)
        },
{
    let ez = (var_z(), spec_mm_bytes(z_microns as nat));
    let ec = (var_curing(), spec_bool_bytes(curing));
    assert forall|k: Seq<u8>| #[trigger] spec_lookup(spec_state_bound(vars, z_microns, curing), k)
        == if k == var_z() {
        Some(spec_mm_bytes(z_microns as nat))
    } else if k == var_curing() {
        Some(spec_bool_bytes(curing))
    } else {
        spec_lookup(vars, k)
    } by {
        assert(spec_state_bound(vars, z_microns, curing) =~= seq![ez] + (seq![ec] + vars));
        lemma_lookup_cons(ez, seq![ec] + vars, k);
        lemma_lookup_cons(ec, vars, k);
    }
}

/// What the move bindings answer to each lookup.
pub proof fn lemma_move_bindings_lookup(vars: Seq<(Seq<u8>, Seq<u8>)>, speed: u32)
    ensures
        forall|k: Seq<u8>| #[trigger] spec_lookup(spec_move_bindings(vars, speed), k) == if k
            == var_speed() {
            Some(spec_mm_bytes((speed * 60) as nat))
        } else {
            spec_lookup(vars, k)
        },
{
    let es = (var_speed(), spec_mm_bytes((speed * 60) as nat));
    assert forall|k: Seq<u8>| #[trigger] spec_lookup(spec_move_bindings(vars, speed), k) == if k
        == var_speed() {
        Some(spec_mm_bytes((speed * 60) as nat))
    } else {
        spec_lookup(vars, k)
    } by {
        assert(spec_move_bindings(vars, speed) =~= seq![es] + vars);
        lemma_lookup_cons(es, vars, k);
    }
}

/// `line` with the carriage-return/line-feed pair the wire wants.
pub open spec fn spec_crlf_terminated(line: Seq<u8>) -> Seq<u8> {
    line + seq![13u8, 10u8]
}

/// A request the motion transport is asked to perform: fire and forget,
/// send and test the next reply, or send and poll for an expected reply
/// under a timeout.
pub enum SerialRequest {
    Send { line: Vec<u8> },
    SendAndCheck { line: Vec<u8>, expect: Vec<u8> },
    SendAndAwait { line: Vec<u8>, expect: Vec<u8>, timeout_seconds: u64 },
}

/// The configured command templates of the motion firmware's dialect,
/// and the replies the engine synchronises on.
#[derive(Clone, Debug)]
pub struct GcodeConfig {
    pub boot: Vec<u8>,
    pub shutdown: Vec<u8>,
    pub home_command: Vec<u8>,
    pub move_command: Vec<u8>,
    pub manual_move_command: Option<Vec<u8>>,
    pub print_start: Vec<u8>,
    pub print_end: Vec<u8>,
    pub layer_start: Vec<u8>,
    pub cure_start: Vec<u8>,
    pub cure_end: Vec<u8>,
    /// The substring of a reply that marks a completed move.
    pub move_sync: Vec<u8>,
    pub move_timeout: u64,
    pub status_check: Vec<u8>,
    /// The substring of a reply that marks a ready controller.
    pub status_desired: Vec<u8>,
}

/// The motion protocol client: templates, the mirrored physical state,
/// and the variable bindings commands are substituted against.  It is
/// the only writer of the mirror, so the state machine trusts the pose
/// each operation returns.
pub struct Gcode {
    pub config: GcodeConfig,
    pub state: PhysicalState,
    pub gcode_substitutions: VarMap,
}

impl Gcode {
    /// The variable map keeps its keys unique.
    pub open spec fn wf(&self) -> bool {
        self.gcode_substitutions.wf()
    }

    /// A fresh client at pose zero with no bindings.
    pub fn new(config: GcodeConfig) -> (r: Gcode)
        ensures
            r.wf(),
            r.config == config,
            r.state.z_microns == 0,
            !r.state.curing,
            r.gcode_substitutions@ == Seq::<(Seq<u8>, Seq<u8>)>::empty(),
    {
        Gcode { config, state: PhysicalState::initial(), gcode_substitutions: VarMap::new() }
    }

    /// Records the pose a move command drives the platform to; the
    /// mirror is updated when the command is issued.
    pub fn set_position(&mut self, position: u32) -> (r: PhysicalState)
        ensures
            final(self).state.z_microns == position,
            final(self).state.curing == old(self).state.curing,
            final(self).config == old(self).config,
            final(self).gcode_substitutions == old(self).gcode_substitutions,
            r == final(self).state,
    {
        self.state.z_microns = position;
        self.state
    }

    /// Records the curing flag a cure command switches to.
    pub fn set_curing(&mut self, curing: bool) -> (r: PhysicalState)
        ensures
            final(self).state.curing == curing,
            final(self).state.z_microns == old(self).state.z_microns,
            final(self).config == old(self).config,
            final(self).gcode_substitutions == old(self).gcode_substitutions,
            r == final(self).state,
    {
        self.state.curing = curing;
        self.state
    }

    /// Binds the reserved `curing` and `z` identifiers to the mirrored
    /// pose, as every substitution sees them.
    pub fn add_state_variables(&mut self)
        requires
            old(self).wf(),
        ensures
            final(self).wf(),
            final(self).state == old(self).state,
            final(self).config == old(self).config,
            forall|k: Seq<u8>| #[trigger]
                spec_lookup(final(self).gcode_substitutions@, k) == if k == var_z() {
                    Some(spec_mm_bytes(old(self).state.z_microns as nat))
                } else if k == var_curing() {
                    Some(spec_bool_bytes(old(self).state.curing))
                } else {
                    spec_lookup(old(self).gcode_substitutions@, k)
                },
    {
        let curing_value = bool_bytes(self.state.curing);
        self.gcode_substitutions.insert(var_curing_bytes(), curing_value);
        let z_value = mm_bytes(self.state.z_microns as u64);
        self.gcode_substitutions.insert(var_z_bytes(), z_value);
    }

    /// Substitutes a template against the bindings, the mirrored pose
    /// freshly bound; an unbound token is a configuration error.
    pub fn parse_gcode(&mut self, code: &[u8]) -> (r: Result<Vec<u8>, OdysseyError>)
        requires
            old(self).wf(),
        ensures
            final(self).wf(),
            final(self).state == old(self).state,
            final(self).config == old(self).config,
            forall|k: Seq<u8>| #[trigger]
                spec_lookup(final(self).gcode_substitutions@, k) == if k == var_z() {
                    Some(spec_mm_bytes(old(self).state.z_microns as nat))
                } else if k == var_curing() {
                    Some(spec_bool_bytes(old(self).state.curing))
                } else {
                    spec_lookup(old(self).gcode_substitutions@, k)
                },
            match r {
                Ok(out) => spec_substitute(
                    code@,
                    spec_state_bound(
                        old(self).gcode_substitutions@,
                        old(self).state.z_microns,
                        old(self).state.curing,
                    ),
                ) == Some(out@),
                Err(e) => {
                    &&& spec_substitute(
                        code@,
                        spec_state_bound(
                        old(self).gcode_substitutions@,
                        old(self).state.z_microns,
                        old(self).state.curing,
                    ),
                    ) is None
                    &&& e.error_type == ErrorType::ConfigurationError
                },
            },
    {
        let ghost canonical = spec_state_bound(
            self.gcode_substitutions@,
            self.state.z_microns,
            self.state.curing,
        );
        self.add_state_variables();
        proof {
            lemma_state_bound_lookup(
                old(self).gcode_substitutions@,
                old(self).state.z_microns,
                old(self).state.curing,
            );
            lemma_subst_lookup_ext(code@, self.gcode_substitutions@, canonical, 0);
        }
        substitute(code, &self.gcode_substitutions)
    }

    /// A substituted command line with its CRLF terminator, ready for
    /// the wire.
    pub fn command_line(&mut self, code: &[u8]) -> (r: Result<Vec<u8>, OdysseyError>)
        requires
            old(self).wf(),
        ensures
            final(self).wf(),
            final(self).state == old(self).state,
            final(self).config == old(self).config,
            forall|k: Seq<u8>| #[trigger]
                spec_lookup(final(self).gcode_substitutions@, k) == if k == var_z() {
                    Some(spec_mm_bytes(old(self).state.z_microns as nat))
                } else if k == var_curing() {
                    Some(spec_bool_bytes(old(self).state.curing))
                } else {
                    spec_lookup(old(self).gcode_substitutions@, k)
                },
            match r {
                Ok(line) => exists|body: Seq<u8>|
                    spec_substitute(
                        code@,
                        spec_state_bound(
                        old(self).gcode_substitutions@,
                        old(self).state.z_microns,
                        old(self).state.curing,
                    ),
                    ) == Some(body) && line@ == #[trigger] spec_crlf_terminated(body),
                Err(e) => {
                    &&& spec_substitute(
                        code@,
                        spec_state_bound(
                        old(self).gcode_substitutions@,
                        old(self).state.z_microns,
                        old(self).state.curing,
                    ),
                    ) is None
                    &&& e.error_type == ErrorType::ConfigurationError
                },
            },
    {
        match self.parse_gcode(code) {
            Ok(mut line) => {
                let ghost body = line@;
                line.push(13);
                line.push(10);
                proof {
                    assert(line@ =~= spec_crlf_terminated(body));
                }
                Ok(line)
            },
            Err(e) => Err(e),
        }
    }
}

/// The request and the mirrored pose a successful hardware operation
/// hands the state machine.
pub struct MotionStep {
    pub request: SerialRequest,
    pub state: PhysicalState,
}

impl Gcode {
    /// The readiness probe: the status-check template is sent and the
    /// next reply is tested for the configured ready substring.
    pub fn is_ready(&mut self) -> (r: Result<SerialRequest, OdysseyError>)
        requires
            old(self).wf(),
        ensures
            final(self).wf(),
            final(self).state == old(self).state,
            final(self).config == old(self).config,
            forall|k: Seq<u8>| #[trigger]
                spec_lookup(final(self).gcode_substitutions@, k) == spec_lookup(
                    spec_state_bound(
                        old(self).gcode_substitutions@,
                        old(self).state.z_microns,
                        old(self).state.curing,
                    ),
                    k,
                ),
            match r {
                Ok(req) => match req {
                    SerialRequest::SendAndCheck { line, expect } => {
                        &&& exists|body: Seq<u8>|
                            spec_substitute(
                                old(self).config.status_check@,
                                spec_state_bound(
                                    old(self).gcode_substitutions@,
                                    old(self).state.z_microns,
                                    old(self).state.curing,
                                ),
                            ) == Some(body) && line@ == #[trigger] spec_crlf_terminated(body)
                        &&& expect@ == old(self).config.status_desired@
                    },
                    _ => false,
                },
                Err(e) => {
                    &&& spec_substitute(
                        old(self).config.status_check@,
                        spec_state_bound(
                            old(self).gcode_substitutions@,
                            old(self).state.z_microns,
                            old(self).state.curing,
                        ),
                    ) is None
                    &&& e.error_type == ErrorType::ConfigurationError
                },
            },
    {
        let template = self.config.status_check.clone();
        proof {
            lemma_state_bound_lookup(
                self.gcode_substitutions@,
                self.state.z_microns,
                self.state.curing,
            );
        }
        match self.command_line(template.as_slice()) {
            Ok(line) => Ok(
                SerialRequest::SendAndCheck { line, expect: self.config.status_desired.clone() },
            ),
            Err(e) => Err(e),
        }
    }

    /// Fire-and-forget execution of one template: substitute, terminate
    /// with CRLF, enqueue.
    fn send_template(&mut self, template: Vec<u8>) -> (r: Result<SerialRequest, OdysseyError>)
        requires
            old(self).wf(),
        ensures
            final(self).wf(),
            final(self).state == old(self).state,
            final(self).config == old(self).config,
            forall|k: Seq<u8>| #[trigger]
                spec_lookup(final(self).gcode_substitutions@, k) == if k == var_z() {
                    Some(spec_mm_bytes(old(self).state.z_microns as nat))
                } else if k == var_curing() {
                    Some(spec_bool_bytes(old(self).state.curing))
                } else {
                    spec_lookup(old(self).gcode_substitutions@, k)
                },
            match r {
                Ok(req) => match req {
                    SerialRequest::Send { line } => exists|body: Seq<u8>|
                        spec_substitute(
                            template@,
                            spec_state_bound(
                                old(self).gcode_substitutions@,
                                old(self).state.z_microns,
                                old(self).state.curing,
                            ),
                        ) == Some(body) && line@ == #[trigger] spec_crlf_terminated(body),
                    _ => false,
                },
                Err(e) => {
                    &&& spec_substitute(
                        template@,
                        spec_state_bound(
                            old(self).gcode_substitutions@,
                            old(self).state.z_microns,
                            old(self).state.curing,
                        ),
                    ) is None
                    &&& e.error_type == ErrorType::ConfigurationError
                },
            },
    {
        let line = self.command_line(template.as_slice())?;
        Ok(SerialRequest::Send { line })
    }

    /// The homing command; the pose is unchanged until a move is issued.
    pub fn home(&mut self) -> (r: Result<MotionStep, OdysseyError>)
        requires
            old(self).wf(),
        ensures
            final(self).wf(),
            final(self).state == old(self).state,
            final(self).config == old(self).config,
            forall|k: Seq<u8>| #[trigger]
                spec_lookup(final(self).gcode_substitutions@, k) == spec_lookup(
                    spec_state_bound(
                        old(self).gcode_substitutions@,
                        old(self).state.z_microns,
                        old(self).state.curing,
                    ),
                    k,
                ),
            match r {
                Ok(step) => step.state == old(self).state && match step.request {
                    SerialRequest::Send { line } => exists|body: Seq<u8>|
                        spec_substitute(
                            old(self).config.home_command@,
                            spec_state_bound(
                                old(self).gcode_substitutions@,
                                old(self).state.z_microns,
                                old(self).state.curing,
                            ),
                        ) == Some(body) && line@ == #[trigger] spec_crlf_terminated(body),
                    _ => false,
                },
                Err(e) => {
                    &&& spec_substitute(
                        old(self).config.home_command@,
                        spec_state_bound(
                            old(self).gcode_substitutions@,
                            old(self).state.z_microns,
                            old(self).state.curing,
                        ),
                    ) is None
                    &&& e.error_type == ErrorType::ConfigurationError
                },
            },
    {
        let template = self.config.home_command.clone();
        proof {
            lemma_state_bound_lookup(
                self.gcode_substitutions@,
                self.state.z_microns,
                self.state.curing,
            );
        }
        match self.send_template(template) {
            Ok(request) => Ok(MotionStep { request, state: self.state }),
            Err(e) => Err(e),
        }
    }

    /// A raw operator command, substituted like any template.
    pub fn manual_command(&mut self, command: Vec<u8>) -> (r: Result<MotionStep, OdysseyError>)
        requires
            old(self).wf(),
        ensures
            final(self).wf(),
            final(self).state == old(self).state,
            final(self).config == old(self).config,
            forall|k: Seq<u8>| #[trigger]
                spec_lookup(final(self).gcode_substitutions@, k) == spec_lookup(
                    spec_state_bound(
                        old(self).gcode_substitutions@,
                        old(self).state.z_microns,
                        old(self).state.curing,
                    ),
                    k,
                ),
            match r {
                Ok(step) => step.state == old(self).state && match step.request {
                    SerialRequest::Send { line } => exists|body: Seq<u8>|
                        spec_substitute(
                            command@,
                            spec_state_bound(
                                old(self).gcode_substitutions@,
                                old(self).state.z_microns,
                                old(self).state.curing,
                            ),
                        ) == Some(body) && line@ == #[trigger] spec_crlf_terminated(body),
                    _ => false,
                },
                Err(e) => {
                    &&& spec_substitute(
                        command@,
                        spec_state_bound(
                            old(self).gcode_substitutions@,
                            old(self).state.z_microns,
                            old(self).state.curing,
                        ),
                    ) is None
                    &&& e.error_type == ErrorType::ConfigurationError
                },
            },
    {
        let template = command;
        proof {
            lemma_state_bound_lookup(
                self.gcode_substitutions@,
                self.state.z_microns,
                self.state.curing,
            );
        }
        match self.send_template(template) {
            Ok(request) => Ok(MotionStep { request, state: self.state }),
            Err(e) => Err(e),
        }
    }

    /// The template a move is built from: the manual-move template when
    /// one is configured and the move is operator-driven, else the
    /// ordinary move template.
    pub open spec fn spec_move_template(config: GcodeConfig, manual: bool) -> Seq<u8> {
        if manual && config.manual_move_command is Some {
            config.manual_move_command->0@
        } else {
            config.move_command@
        }
    }

    /// Issues a move of the platform to `z` microns at `speed` microns
    /// per second.  The mirror takes the target pose, `{speed}` is bound
    /// to the firmware's millimetre-per-minute figure for this command
    /// and unbound again afterwards, and the transport is asked to
    /// await the configured move-sync reply.
    pub fn move_z(&mut self, z: u32, speed: u32, manual: bool) -> (r: Result<
        MotionStep,
        OdysseyError,
    >)
        requires
            old(self).wf(),
        ensures
            final(self).wf(),
            final(self).state.z_microns == z,
            final(self).state.curing == old(self).state.curing,
            final(self).config == old(self).config,
            forall|k: Seq<u8>| #[trigger]
                spec_lookup(final(self).gcode_substitutions@, k) == if k == var_speed() {
                    None::<Seq<u8>>
                } else {
                    spec_lookup(
                        spec_state_bound(
                            old(self).gcode_substitutions@,
                            z,
                            old(self).state.curing,
                        ),
                        k,
                    )
                },
            match r {
                Ok(step) => step.state == final(self).state && match step.request {
                    SerialRequest::SendAndAwait { line, expect, timeout_seconds } => {
                        &&& exists|body: Seq<u8>|
                            spec_substitute(
                                Self::spec_move_template(old(self).config, manual),
                                spec_state_bound(
                                    spec_move_bindings(old(self).gcode_substitutions@, speed),
                                    z,
                                    old(self).state.curing,
                                ),
                            ) == Some(body) && line@ == #[trigger] spec_crlf_terminated(body)
                        &&& expect@ == old(self).config.move_sync@
                        &&& timeout_seconds == old(self).config.move_timeout
                    },
                    _ => false,
                },
                Err(e) => {
                    &&& spec_substitute(
                        Self::spec_move_template(old(self).config, manual),
                        spec_state_bound(
                            spec_move_bindings(old(self).gcode_substitutions@, speed),
                            z,
                            old(self).state.curing,
                        ),
                    ) is None
                    &&& e.error_type == ErrorType::ConfigurationError
                },
            },
    {
        let speed_per_minute: u64 = (speed as u64) * 60;
        let command = match &self.config.manual_move_command {
            Option::Some(manual_move) => {
                if manual {
                    manual_move.clone()
                } else {
                    self.config.move_command.clone()
                }
            },
            Option::None => self.config.move_command.clone(),
        };
        proof {
            assert(command@ == Self::spec_move_template(old(self).config, manual));
        }
        self.set_position(z);
        self.add_print_variable(var_speed_bytes(), mm_bytes(speed_per_minute));
        let ghost mid = self.gcode_substitutions@;
        let ghost mb = spec_move_bindings(old(self).gcode_substitutions@, speed);
        proof {
            lemma_move_bindings_lookup(old(self).gcode_substitutions@, speed);
            lemma_state_bound_lookup(mid, z, old(self).state.curing);
            lemma_state_bound_lookup(mb, z, old(self).state.curing);
            lemma_state_bound_lookup(
                old(self).gcode_substitutions@,
                z,
                old(self).state.curing,
            );
            assert(forall|k: Seq<u8>| #[trigger] spec_lookup(mid, k) == spec_lookup(mb, k));
            assert(forall|k: Seq<u8>| #[trigger]
                spec_lookup(spec_state_bound(mid, z, old(self).state.curing), k) == spec_lookup(
                    spec_state_bound(mb, z, old(self).state.curing),
                    k,
                ));
            lemma_subst_lookup_ext(
                command@,
                spec_state_bound(mid, z, old(self).state.curing),
                spec_state_bound(mb, z, old(self).state.curing),
                0,
            );
        }
        let lined = self.command_line(command.as_slice());
        let speed_key = var_speed_bytes();
        self.remove_print_variable(speed_key.as_slice());
        match lined {
            Ok(line) => Ok(
                MotionStep {
                    request: SerialRequest::SendAndAwait {
                        line,
                        expect: self.config.move_sync.clone(),
                        timeout_seconds: self.config.move_timeout,
                    },
                    state: self.state,
                },
            ),
            Err(e) => Err(e),
        }
    }

    /// Announces a layer; the pose is unchanged.
    pub fn start_layer(&mut self) -> (r: Result<MotionStep, OdysseyError>)
        requires
            old(self).wf(),
        ensures
            final(self).wf(),
            final(self).state == old(self).state,
            final(self).config == old(self).config,
            forall|k: Seq<u8>| #[trigger]
                spec_lookup(final(self).gcode_substitutions@, k) == spec_lookup(
                    spec_state_bound(
                        old(self).gcode_substitutions@,
                        old(self).state.z_microns,
                        old(self).state.curing,
                    ),
                    k,
                ),
            match r {
                Ok(step) => step.state == old(self).state && match step.request {
                    SerialRequest::Send { line } => exists|body: Seq<u8>|
                        spec_substitute(
                            old(self).config.layer_start@,
                            spec_state_bound(
                                old(self).gcode_substitutions@,
                                old(self).state.z_microns,
                                old(self).state.curing,
                            ),
                        ) == Some(body) && line@ == #[trigger] spec_crlf_terminated(body),
                    _ => false,
                },
                Err(e) => {
                    &&& spec_substitute(
                        old(self).config.layer_start@,
                        spec_state_bound(
                            old(self).gcode_substitutions@,
                            old(self).state.z_microns,
                            old(self).state.curing,
                        ),
                    ) is None
                    &&& e.error_type == ErrorType::ConfigurationError
                },
            },
    {
        let template = self.config.layer_start.clone();
        proof {
            lemma_state_bound_lookup(
                self.gcode_substitutions@,
                self.state.z_microns,
                self.state.curing,
            );
        }
        match self.send_template(template) {
            Ok(request) => Ok(MotionStep { request, state: self.state }),
            Err(e) => Err(e),
        }
    }

    /// Switches the UV source on: the mirror takes `curing = true` as
    /// the command is issued.
    pub fn start_curing(&mut self) -> (r: Result<MotionStep, OdysseyError>)
        requires
            old(self).wf(),
        ensures
            final(self).wf(),
            final(self).state.curing == true,
            final(self).state.z_microns == old(self).state.z_microns,
            final(self).config == old(self).config,
            forall|k: Seq<u8>| #[trigger]
                spec_lookup(final(self).gcode_substitutions@, k) == spec_lookup(
                    spec_state_bound(
                        old(self).gcode_substitutions@,
                        old(self).state.z_microns,
                        true,
                    ),
                    k,
                ),
            match r {
                Ok(step) => step.state == final(self).state && match step.request {
                    SerialRequest::Send { line } => exists|body: Seq<u8>|
                        spec_substitute(
                            old(self).config.cure_start@,
                            spec_state_bound(
                                old(self).gcode_substitutions@,
                                old(self).state.z_microns,
                                true,
                            ),
                        ) == Some(body) && line@ == #[trigger] spec_crlf_terminated(body),
                    _ => false,
                },
                Err(e) => {
                    &&& spec_substitute(
                        old(self).config.cure_start@,
                        spec_state_bound(
                            old(self).gcode_substitutions@,
                            old(self).state.z_microns,
                            true,
                        ),
                    ) is None
                    &&& e.error_type == ErrorType::ConfigurationError
                },
            },
    {
        self.set_curing(true);
        let template = self.config.cure_start.clone();
        proof {
            lemma_state_bound_lookup(
                self.gcode_substitutions@,
                self.state.z_microns,
                self.state.curing,
            );
        }
        match self.send_template(template) {
            Ok(request) => Ok(MotionStep { request, state: self.state }),
            Err(e) => Err(e),
        }
    }

    /// Switches the UV source off: the mirror takes `curing = false`.
    pub fn stop_curing(&mut self) -> (r: Result<MotionStep, OdysseyError>)
        requires
            old(self).wf(),
        ensures
            final(self).wf(),
            final(self).state.curing == false,
            final(self).state.z_microns == old(self).state.z_microns,
            final(self).config == old(self).config,
            forall|k: Seq<u8>| #[trigger]
                spec_lookup(final(self).gcode_substitutions@, k) == spec_lookup(
                    spec_state_bound(
                        old(self).gcode_substitutions@,
                        old(self).state.z_microns,
                        false,
                    ),
                    k,
                ),
            match r {
                Ok(step) => step.state == final(self).state && match step.request {
                    SerialRequest::Send { line } => exists|body: Seq<u8>|
                        spec_substitute(
                            old(self).config.cure_end@,
                            spec_state_bound(
                                old(self).gcode_substitutions@,
                                old(self).state.z_microns,
                                false,
                            ),
                        ) == Some(body) && line@ == #[trigger] spec_crlf_terminated(body),
                    _ => false,
                },
                Err(e) => {
                    &&& spec_substitute(
                        old(self).config.cure_end@,
                        spec_state_bound(
                            old(self).gcode_substitutions@,
                            old(self).state.z_microns,
                            false,
                        ),
                    ) is None
                    &&& e.error_type == ErrorType::ConfigurationError
                },
            },
    {
        self.set_curing(false);
        let template = self.config.cure_end.clone();
        proof {
            lemma_state_bound_lookup(
                self.gcode_substitutions@,
                self.state.z_microns,
                self.state.curing,
            );
        }
        match self.send_template(template) {
            Ok(request) => Ok(MotionStep { request, state: self.state }),
            Err(e) => Err(e),
        }
    }

    /// The print-start announcement.
    pub fn start_print(&mut self) -> (r: Result<MotionStep, OdysseyError>)
        requires
            old(self).wf(),
        ensures
            final(self).wf(),
            final(self).state == old(self).state,
            final(self).config == old(self).config,
            forall|k: Seq<u8>| #[trigger]
                spec_lookup(final(self).gcode_substitutions@, k) == spec_lookup(
                    spec_state_bound(
                        old(self).gcode_substitutions@,
                        old(self).state.z_microns,
                        old(self).state.curing,
                    ),
                    k,
                ),
            match r {
                Ok(step) => step.state == old(self).state && match step.request {
                    SerialRequest::Send { line } => exists|body: Seq<u8>|
                        spec_substitute(
                            old(self).config.print_start@,
                            spec_state_bound(
                                old(self).gcode_substitutions@,
                                old(self).state.z_microns,
                                old(self).state.curing,
                            ),
                        ) == Some(body) && line@ == #[trigger] spec_crlf_terminated(body),
                    _ => false,
                },
                Err(e) => {
                    &&& spec_substitute(
                        old(self).config.print_start@,
                        spec_state_bound(
                            old(self).gcode_substitutions@,
                            old(self).state.z_microns,
                            old(self).state.curing,
                        ),
                    ) is None
                    &&& e.error_type == ErrorType::ConfigurationError
                },
            },
    {
        let template = self.config.print_start.clone();
        proof {
            lemma_state_bound_lookup(
                self.gcode_substitutions@,
                self.state.z_microns,
                self.state.curing,
            );
        }
        match self.send_template(template) {
            Ok(request) => Ok(MotionStep { request, state: self.state }),
            Err(e) => Err(e),
        }
    }

    /// The print-end announcement.
    pub fn end_print(&mut self) -> (r: Result<MotionStep, OdysseyError>)
        requires
            old(self).wf(),
        ensures
            final(self).wf(),
            final(self).state == old(self).state,
            final(self).config == old(self).config,
            forall|k: Seq<u8>| #[trigger]
                spec_lookup(final(self).gcode_substitutions@, k) == spec_lookup(
                    spec_state_bound(
                        old(self).gcode_substitutions@,
                        old(self).state.z_microns,
                        old(self).state.curing,
                    ),
                    k,
                ),
            match r {
                Ok(step) => step.state == old(self).state && match step.request {
                    SerialRequest::Send { line } => exists|body: Seq<u8>|
                        spec_substitute(
                            old(self).config.print_end@,
                            spec_state_bound(
                                old(self).gcode_substitutions@,
                                old(self).state.z_microns,
                                old(self).state.curing,
                            ),
                        ) == Some(body) && line@ == #[trigger] spec_crlf_terminated(body),
                    _ => false,
                },
                Err(e) => {
                    &&& spec_substitute(
                        old(self).config.print_end@,
                        spec_state_bound(
                            old(self).gcode_substitutions@,
                            old(self).state.z_microns,
                            old(self).state.curing,
                        ),
                    ) is None
                    &&& e.error_type == ErrorType::ConfigurationError
                },
            },
    {
        let template = self.config.print_end.clone();
        proof {
            lemma_state_bound_lookup(
                self.gcode_substitutions@,
                self.state.z_microns,
                self.state.curing,
            );
        }
        match self.send_template(template) {
            Ok(request) => Ok(MotionStep { request, state: self.state }),
            Err(e) => Err(e),
        }
    }

    /// The boot-up template, issued when the controller becomes ready.
    pub fn boot(&mut self) -> (r: Result<MotionStep, OdysseyError>)
        requires
            old(self).wf(),
        ensures
            final(self).wf(),
            final(self).state == old(self).state,
            final(self).config == old(self).config,
            forall|k: Seq<u8>| #[trigger]
                spec_lookup(final(self).gcode_substitutions@, k) == spec_lookup(
                    spec_state_bound(
                        old(self).gcode_substitutions@,
                        old(self).state.z_microns,
                        old(self).state.curing,
                    ),
                    k,
                ),
            match r {
                Ok(step) => step.state == old(self).state && match step.request {
                    SerialRequest::Send { line } => exists|body: Seq<u8>|
                        spec_substitute(
                            old(self).config.boot@,
                            spec_state_bound(
                                old(self).gcode_substitutions@,
                                old(self).state.z_microns,
                                old(self).state.curing,
                            ),
                        ) == Some(body) && line@ == #[trigger] spec_crlf_terminated(body),
                    _ => false,
                },
                Err(e) => {
                    &&& spec_substitute(
                        old(self).config.boot@,
                        spec_state_bound(
                            old(self).gcode_substitutions@,
                            old(self).state.z_microns,
                            old(self).state.curing,
                        ),
                    ) is None
                    &&& e.error_type == ErrorType::ConfigurationError
                },
            },
    {
        let template = self.config.boot.clone();
        proof {
            lemma_state_bound_lookup(
                self.gcode_substitutions@,
                self.state.z_microns,
                self.state.curing,
            );
        }
        match self.send_template(template) {
            Ok(request) => Ok(MotionStep { request, state: self.state }),
            Err(e) => Err(e),
        }
    }

    /// The shutdown template, issued best-effort on the way down.
    pub fn shutdown(&mut self) -> (r: Result<SerialRequest, OdysseyError>)
        requires
            old(self).wf(),
        ensures
            final(self).wf(),
            final(self).state == old(self).state,
            final(self).config == old(self).config,
            forall|k: Seq<u8>| #[trigger]
                spec_lookup(final(self).gcode_substitutions@, k) == spec_lookup(
                    spec_state_bound(
                        old(self).gcode_substitutions@,
                        old(self).state.z_microns,
                        old(self).state.curing,
                    ),
                    k,
                ),
            match r {
                Ok(req) => match req {
                    SerialRequest::Send { line } => exists|body: Seq<u8>|
                        spec_substitute(
                            old(self).config.shutdown@,
                            spec_state_bound(
                                old(self).gcode_substitutions@,
                                old(self).state.z_microns,
                                old(self).state.curing,
                            ),
                        ) == Some(body) && line@ == #[trigger] spec_crlf_terminated(body),
                    _ => false,
                },
                Err(e) => {
                    &&& spec_substitute(
                        old(self).config.shutdown@,
                        spec_state_bound(
                            old(self).gcode_substitutions@,
                            old(self).state.z_microns,
                            old(self).state.curing,
                        ),
                    ) is None
                    &&& e.error_type == ErrorType::ConfigurationError
                },
            },
    {
        let template = self.config.shutdown.clone();
        proof {
            lemma_state_bound_lookup(
                self.gcode_substitutions@,
                self.state.z_microns,
                self.state.curing,
            );
        }
        match self.send_template(template) {
            Ok(request) => Ok(request),
            Err(e) => Err(e),
        }
    }

    /// The mirrored pose.
    pub fn get_physical_state(&self) -> (r: PhysicalState)
        ensures
            r == self.state,
    {
        self.state
    }

    /// Binds a caller-set identifier such as `layer` or `total_layers`.
    pub fn add_print_variable(&mut self, variable: Vec<u8>, value: Vec<u8>)
        requires
            old(self).wf(),
        ensures
            final(self).wf(),
            final(self).state == old(self).state,
            final(self).config == old(self).config,
            forall|k: Seq<u8>| #[trigger]
                spec_lookup(final(self).gcode_substitutions@, k) == if k == variable@ {
                    Some(value@)
                } else {
                    spec_lookup(old(self).gcode_substitutions@, k)
                },
    {
        self.gcode_substitutions.insert(variable, value);
    }

    /// Drops a caller-set binding.
    pub fn remove_print_variable(&mut self, variable: &[u8])
        requires
            old(self).wf(),
        ensures
            final(self).wf(),
            final(self).state == old(self).state,
            final(self).config == old(self).config,
            forall|k: Seq<u8>| #[trigger]
                spec_lookup(final(self).gcode_substitutions@, k) == if k == variable@ {
                    None::<Seq<u8>>
                } else {
                    spec_lookup(old(self).gcode_substitutions@, k)
                },
    {
        self.gcode_substitutions.remove(variable);
    }

    /// Drops every binding, as the end of a print does.
    pub fn clear_variables(&mut self)
        ensures
            final(self).wf(),
            final(self).state == old(self).state,
            final(self).config == old(self).config,
            final(self).gcode_substitutions@ == Seq::<(Seq<u8>, Seq<u8>)>::empty(),
    {
        self.gcode_substitutions.clear();
    }
}

} // verus!
