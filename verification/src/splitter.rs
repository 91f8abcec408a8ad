//! The multi-stage source splitter: consumes the text lines of one physical
//! shader file and produces the ordered logical shader-stage units, each with
//! its synthesized source and a map from synthesized lines back to original
//! line indices.
//!
//! A line containing the sentinel `//#` is a directive line. On it, the token
//! after the sentinel position (the second space-separated token of the line)
//! is the instruction: an instruction containing `TYPE` with an argument
//! switches the stage, flushing any open unit; an instruction containing
//! `VERSION` with an argument records the version, which persists across
//! flushes until overwritten. Every other line is source text: the first
//! retained line of a unit is taken as it stands, later lines are dropped
//! when blank or starting with `//`. Lines seen before the first stage
//! directive belong to no unit and are discarded when the first stage opens.

use vstd::prelude::*;
use vstd::string::*;

use crate::errors::CompilerError;
use crate::kind::ShaderKind;
use crate::kind::kind_of_token;
use crate::kind::parse_shader_kind;
use crate::text::contains_seq;
use crate::text::contains_substr;
use crate::text::split_char;
use crate::text::split_on_char;
use crate::text::starts_with_seq;
use crate::text::starts_with_str;

verus! {

/// The mathematical model of one logical shader-stage unit.
#[verifier::ext_equal]
pub struct UnitModel {
    pub stage: ShaderKind,
    pub version: Option<Seq<char>>,
    pub source: Seq<char>,
    pub map: Seq<usize>,
}

/// One self-contained shader-stage source extracted from a physical file.
pub struct LogicalUnit {
    /// The pipeline stage the unit compiles for.
    pub stage: ShaderKind,
    /// The version token to prepend as a pragma, if one was recorded.
    pub version: Option<String>,
    /// The synthesized source: the retained lines joined by newlines.
    pub source_text: String,
    /// For each synthesized line, the zero-based index of the original line.
    pub line_map: Vec<usize>,
}

impl View for LogicalUnit {
    type V = UnitModel;

    open spec fn view(&self) -> UnitModel {
        UnitModel {
            stage: self.stage,
            version: self.version.deep_view(),
            source: self.source_text@,
            map: self.line_map@,
        }
    }
}

impl DeepView for LogicalUnit {
    type V = UnitModel;

    open spec fn deep_view(&self) -> UnitModel {
        self@
    }
}

/// The splitter's state after some prefix of the lines has been consumed.
#[verifier::ext_equal]
pub struct SplitState {
    /// Units flushed so far, in order.
    pub units: Seq<UnitModel>,
    /// The stage of the currently open unit, if a stage directive was seen.
    pub stage: Option<ShaderKind>,
    /// The last version token recorded; persists across flushes.
    pub version: Option<Seq<char>>,
    /// The source accumulated for the open unit.
    pub acc: Seq<char>,
    /// The original line index of each line retained in `acc`.
    pub map: Seq<usize>,
}

pub open spec fn init_state() -> SplitState {
    SplitState {
        units: Seq::empty(),
        stage: None,
        version: None,
        acc: Seq::empty(),
        map: Seq::empty(),
    }
}

/// A directive line: one that contains the sentinel anywhere.
pub open spec fn is_directive_line(line: Seq<char>) -> bool {
    contains_seq(line, "//#"@)
}

/// The space-separated tokens of a line (empty tokens kept).
pub open spec fn line_tokens(line: Seq<char>) -> Seq<Seq<char>> {
    split_char(line, ' ')
}

/// The open unit of `st`, flushed as it stands.
pub open spec fn flush_units(st: SplitState) -> Seq<UnitModel> {
    match st.stage {
        Some(k) => st.units.push(
            UnitModel { stage: k, version: st.version, source: st.acc, map: st.map },
        ),
        None => st.units,
    }
}

/// One step of the splitter: consumes the line at index `idx`. An
/// unrecognized stage keyword aborts the file with that token as the error.
pub open spec fn split_step(st: SplitState, line: Seq<char>, idx: usize) -> Result<
    SplitState,
    Seq<char>,
> {
    if is_directive_line(line) {
        let toks = line_tokens(line);
        if toks.len() >= 2 && contains_seq(toks[1], "TYPE"@) {
            if toks.len() >= 3 {
                match kind_of_token(toks[2]) {
                    Some(k) => Ok(
                        SplitState {
                            units: flush_units(st),
                            stage: Some(k),
                            version: st.version,
                            acc: Seq::empty(),
                            map: Seq::empty(),
                        },
                    ),
                    None => Err(toks[2]),
                }
            } else {
                Ok(st)
            }
        } else if toks.len() >= 3 && contains_seq(toks[1], "VERSION"@) {
            Ok(
                SplitState {
                    units: st.units,
                    stage: st.stage,
                    version: Some(toks[2]),
                    acc: st.acc,
                    map: st.map,
                },
            )
        } else {
            Ok(st)
        }
    } else if st.acc.len() == 0 {
        if line.len() == 0 {
            Ok(st)
        } else {
            Ok(
                SplitState {
                    units: st.units,
                    stage: st.stage,
                    version: st.version,
                    acc: line,
                    map: seq![idx],
                },
            )
        }
    } else if line.len() != 0 && !starts_with_seq(line, "//"@) {
        Ok(
            SplitState {
                units: st.units,
                stage: st.stage,
                version: st.version,
                acc: st.acc + seq!['\n'] + line,
                map: st.map.push(idx),
            },
        )
    } else {
        Ok(st)
    }
}

/// The splitter's state after the first `n` lines.
pub open spec fn split_upto(lines: Seq<Seq<char>>, n: int) -> Result<SplitState, Seq<char>>
    decreases n,
{
    if n <= 0 {
        Ok(init_state())
    } else {
        match split_upto(lines, n - 1) {
            Ok(st) => split_step(st, lines[n - 1], (n - 1) as usize),
            Err(t) => Err(t),
        }
    }
}

/// The units produced for a whole file, or the unknown stage keyword that
/// aborted it.
pub open spec fn split_result(lines: Seq<Seq<char>>) -> Result<Seq<UnitModel>, Seq<char>> {
    match split_upto(lines, lines.len() as int) {
        Ok(st) => Ok(flush_units(st)),
        Err(t) => Err(t),
    }
}

/// A stage marker: a directive line whose instruction contains `TYPE` and
/// carries an argument token.
pub open spec fn is_stage_marker(line: Seq<char>) -> bool {
    &&& is_directive_line(line)
    &&& line_tokens(line).len() >= 3
    &&& contains_seq(line_tokens(line)[1], "TYPE"@)
}

/// The number of stage-marker lines among the first `n` lines.
pub open spec fn marker_count(lines: Seq<Seq<char>>, n: int) -> int
    decreases n,
{
    if n <= 0 {
        0
    } else {
        marker_count(lines, n - 1) + if is_stage_marker(lines[n - 1]) {
            1int
        } else {
            0int
        }
    }
}

/// The splitter's state after the first `n` lines, on the non-aborted path.
pub open spec fn state_after(lines: Seq<Seq<char>>, n: int) -> SplitState
    recommends
        split_upto(lines, n) is Ok,
{
    match split_upto(lines, n) {
        Ok(st) => st,
        Err(_) => init_state(),
    }
}

/// The units of a file that splits without error.
pub open spec fn ok_units(lines: Seq<Seq<char>>) -> Seq<UnitModel>
    recommends
        split_result(lines) is Ok,
{
    match split_result(lines) {
        Ok(us) => us,
        Err(_) => Seq::empty(),
    }
}

proof fn lemma_marker_units(lines: Seq<Seq<char>>, n: int)
    requires
        0 <= n <= lines.len(),
        split_upto(lines, n) is Ok,
    ensures
        marker_count(lines, n) >= 0,
        (state_after(lines, n).stage is Some) <==> marker_count(lines, n) > 0,
        state_after(lines, n).units.len() == if marker_count(lines, n) > 0 {
            marker_count(lines, n) - 1
        } else {
            0int
        },
    decreases n,
{
    if n > 0 {
        assert(split_upto(lines, n - 1) is Ok);
        lemma_marker_units(lines, n - 1);
        let st0 = state_after(lines, n - 1);
        let line = lines[n - 1];
        let st1 = state_after(lines, n);
        assert(split_upto(lines, n - 1) == Ok::<SplitState, Seq<char>>(st0));
        assert(split_upto(lines, n) == split_step(st0, line, (n - 1) as usize));
        assert(Ok::<SplitState, Seq<char>>(st1) == split_step(st0, line, (n - 1) as usize));
        assert(marker_count(lines, n) == marker_count(lines, n - 1) + if is_stage_marker(line) {
            1int
        } else {
            0int
        });
        if is_stage_marker(line) {
            let toks = line_tokens(line);
            assert(kind_of_token(toks[2]) is Some);
            assert(st1.units == flush_units(st0));
            assert(st1.stage is Some);
            assert(st1.units.len() == st0.units.len() + if st0.stage is Some {
                1int
            } else {
                0int
            });
        } else {
            assert(st1.stage == st0.stage);
            assert(st1.units == st0.units);
        }
    }
}

/// Every stage marker initiates exactly one logical unit: a file with `N`
/// stage markers and no unrecognized stage keyword splits into exactly `N`
/// units; in particular, content before the first marker opens no unit of
/// its own.
pub proof fn lemma_units_per_marker(lines: Seq<Seq<char>>)
    requires
        split_result(lines) is Ok,
    ensures
        ok_units(lines).len() == marker_count(lines, lines.len() as int),
{
    lemma_marker_units(lines, lines.len() as int);
    let st = state_after(lines, lines.len() as int);
    assert(split_upto(lines, lines.len() as int) == Ok::<SplitState, Seq<char>>(st));
    assert(ok_units(lines) == flush_units(st));
}

/// The number of newline characters in `s`.
pub open spec fn newline_count(s: Seq<char>) -> int
    decreases s.len(),
{
    if s.len() == 0 {
        0
    } else {
        newline_count(s.drop_last()) + if s.last() == '\n' {
            1int
        } else {
            0int
        }
    }
}

/// The line map covers the synthesized source completely: one entry per
/// synthesized line (a unit that retained nothing has an empty map).
pub open spec fn unit_line_map_ok(u: UnitModel) -> bool {
    if u.source.len() == 0 {
        u.map.len() == 0
    } else {
        u.map.len() == newline_count(u.source) + 1
    }
}

proof fn lemma_newline_count_zero(s: Seq<char>)
    requires
        !s.contains('\n'),
    ensures
        newline_count(s) == 0,
    decreases s.len(),
{
    if s.len() > 0 {
        assert(s[s.len() - 1] != '\n');
        assert(!s.drop_last().contains('\n')) by {
            if s.drop_last().contains('\n') {
                let k = choose|k: int| 0 <= k < s.drop_last().len() && s.drop_last()[k] == '\n';
                assert(s[k] == '\n');
            }
        }
        lemma_newline_count_zero(s.drop_last());
    }
}

proof fn lemma_newline_count_add(a: Seq<char>, b: Seq<char>)
    ensures
        newline_count(a + b) == newline_count(a) + newline_count(b),
    decreases b.len(),
{
    if b.len() == 0 {
        assert(a + b =~= a);
    } else {
        assert((a + b).drop_last() =~= a + b.drop_last());
        assert((a + b).last() == b.last());
        lemma_newline_count_add(a, b.drop_last());
    }
}

proof fn lemma_line_map_upto(lines: Seq<Seq<char>>, n: int)
    requires
        0 <= n <= lines.len(),
        split_upto(lines, n) is Ok,
        forall|k: int| 0 <= k < lines.len() ==> !(#[trigger] lines[k]).contains('\n'),
    ensures
        state_after(lines, n).acc.len() == 0 ==> state_after(lines, n).map.len() == 0,
        state_after(lines, n).acc.len() > 0 ==> state_after(lines, n).map.len() == newline_count(
            state_after(lines, n).acc,
        ) + 1,
        forall|u: int|
            0 <= u < state_after(lines, n).units.len() ==> unit_line_map_ok(
                #[trigger] state_after(lines, n).units[u],
            ),
    decreases n,
{
    if n > 0 {
        assert(split_upto(lines, n - 1) is Ok);
        lemma_line_map_upto(lines, n - 1);
        let st0 = state_after(lines, n - 1);
        let st1 = state_after(lines, n);
        let line = lines[n - 1];
        assert(split_upto(lines, n - 1) == Ok::<SplitState, Seq<char>>(st0));
        assert(split_upto(lines, n) == split_step(st0, line, (n - 1) as usize));
        if is_directive_line(line) {
            let toks = line_tokens(line);
            if toks.len() >= 2 && contains_seq(toks[1], "TYPE"@) && toks.len() >= 3 {
                assert(kind_of_token(toks[2]) is Some);
                match st0.stage {
                    Some(k) => {
                        let flushed = UnitModel {
                            stage: k,
                            version: st0.version,
                            source: st0.acc,
                            map: st0.map,
                        };
                        assert(unit_line_map_ok(flushed));
                        assert(st1.units == st0.units.push(flushed));
                        assert(forall|u: int|
                            0 <= u < st1.units.len() ==> unit_line_map_ok(
                                #[trigger] st1.units[u],
                            ));
                    },
                    None => {},
                }
            }
        } else if st0.acc.len() == 0 {
            if line.len() != 0 {
                lemma_newline_count_zero(line);
            }
        } else if line.len() != 0 && !starts_with_seq(line, "//"@) {
            lemma_newline_count_add(st0.acc + seq!['\n'], line);
            lemma_newline_count_add(st0.acc, seq!['\n']);
            lemma_newline_count_zero(line);
            assert(newline_count(seq!['\n']) == 1) by {
                reveal_with_fuel(newline_count, 2);
                assert(seq!['\n'].drop_last() =~= Seq::<char>::empty());
            }
        }
    }
}

/// Every produced unit's line map has exactly one entry per synthesized
/// line: its length is the newline count of the synthesized source plus one
/// (and zero for a unit that retained nothing). Holds for files handed over
/// as separate lines, none of which contains a newline itself.
pub proof fn lemma_line_map_complete(lines: Seq<Seq<char>>)
    requires
        split_result(lines) is Ok,
        forall|k: int| 0 <= k < lines.len() ==> !(#[trigger] lines[k]).contains('\n'),
    ensures
        forall|u: int|
            0 <= u < ok_units(lines).len() ==> unit_line_map_ok(#[trigger] ok_units(lines)[u]),
{
    lemma_line_map_upto(lines, lines.len() as int);
    let st = state_after(lines, lines.len() as int);
    assert(split_upto(lines, lines.len() as int) == Ok::<SplitState, Seq<char>>(st));
    assert(ok_units(lines) == flush_units(st));
    match st.stage {
        Some(k) => {
            let flushed = UnitModel {
                stage: k,
                version: st.version,
                source: st.acc,
                map: st.map,
            };
            assert(unit_line_map_ok(flushed));
            assert(ok_units(lines) == st.units.push(flushed));
        },
        None => {},
    }
}

/// The entries of `m` grow strictly from left to right.
pub open spec fn strictly_increasing(m: Seq<usize>) -> bool {
    forall|a: int, b: int| 0 <= a < b < m.len() ==> #[trigger] m[a] < #[trigger] m[b]
}

/// `m` is an ordered map into the first `n` original lines.
pub open spec fn map_within(m: Seq<usize>, n: int) -> bool {
    &&& strictly_increasing(m)
    &&& forall|e: int| 0 <= e < m.len() ==> m[e] < n
}

proof fn lemma_line_map_ordered_upto(lines: Seq<Seq<char>>, n: int)
    requires
        0 <= n <= lines.len(),
        lines.len() <= usize::MAX,
        split_upto(lines, n) is Ok,
    ensures
        map_within(state_after(lines, n).map, n),
        forall|u: int|
            0 <= u < state_after(lines, n).units.len() ==> map_within(
                (#[trigger] state_after(lines, n).units[u]).map,
                n,
            ),
    decreases n,
{
    if n > 0 {
        assert(split_upto(lines, n - 1) is Ok);
        lemma_line_map_ordered_upto(lines, n - 1);
        let st0 = state_after(lines, n - 1);
        let st1 = state_after(lines, n);
        let line = lines[n - 1];
        assert(split_upto(lines, n - 1) == Ok::<SplitState, Seq<char>>(st0));
        assert(split_upto(lines, n) == split_step(st0, line, (n - 1) as usize));
        if is_directive_line(line) {
            let toks = line_tokens(line);
            if toks.len() >= 2 && contains_seq(toks[1], "TYPE"@) && toks.len() >= 3 {
                assert(kind_of_token(toks[2]) is Some);
                match st0.stage {
                    Some(k) => {
                        assert(st1.units == st0.units.push(
                            UnitModel {
                                stage: k,
                                version: st0.version,
                                source: st0.acc,
                                map: st0.map,
                            },
                        ));
                    },
                    None => {},
                }
            }
        } else if st0.acc.len() == 0 {
            if line.len() != 0 {
                assert(st1.map == seq![(n - 1) as usize]);
            }
        } else if line.len() != 0 && !starts_with_seq(line, "//"@) {
            assert(st1.map == st0.map.push((n - 1) as usize));
        }
    }
}

/// Each produced unit's line map is an ordered sequence of original line
/// indices: its entries grow strictly and all point into the file.
pub proof fn lemma_line_map_ordered(lines: Seq<Seq<char>>)
    requires
        split_result(lines) is Ok,
        lines.len() <= usize::MAX,
    ensures
        forall|u: int|
            0 <= u < ok_units(lines).len() ==> map_within(
                (#[trigger] ok_units(lines)[u]).map,
                lines.len() as int,
            ),
{
    lemma_line_map_ordered_upto(lines, lines.len() as int);
    let st = state_after(lines, lines.len() as int);
    assert(split_upto(lines, lines.len() as int) == Ok::<SplitState, Seq<char>>(st));
    assert(ok_units(lines) == flush_units(st));
}

/// Once a step fails, every longer prefix fails the same way.
pub proof fn lemma_split_upto_err(lines: Seq<Seq<char>>, m: int, n: int)
    requires
        0 <= m <= n,
        split_upto(lines, m) is Err,
    ensures
        split_upto(lines, n) == split_upto(lines, m),
    decreases n - m,
{
    if n > m {
        lemma_split_upto_err(lines, m, n - 1);
    }
}

fn clone_version(v: &Option<String>) -> (r: Option<String>)
    ensures
        r.deep_view() == v.deep_view(),
{
    match v {
        Some(s) => Some(s.clone()),
        None => None,
    }
}

/// Splits one file's text lines into its logical shader-stage units,
/// exactly as [`split_result`] describes; an unrecognized stage keyword
/// aborts the whole file and no unit is produced.
pub fn split(lines: &Vec<String>) -> (r: Result<Vec<LogicalUnit>, CompilerError>)
    ensures
        match r {
            Ok(units) => split_result(lines.deep_view()) == Ok::<Seq<UnitModel>, Seq<char>>(
                units.deep_view(),
            ),
            Err(e) => {
                &&& e matches CompilerError::UnknownShaderType(t)
                &&& split_result(lines.deep_view()) == Err::<Seq<UnitModel>, Seq<char>>(t@)
            },
        },
{
    let ghost dv = lines.deep_view();
    let mut units: Vec<LogicalUnit> = Vec::new();
    let mut stage: Option<ShaderKind> = None;
    let mut version: Option<String> = None;
    let mut acc: String = String::new();
    let mut map: Vec<usize> = Vec::new();
    let mut i: usize = 0;
    proof {
        assert(units.deep_view() =~= Seq::<UnitModel>::empty());
        assert(split_upto(dv, 0) == Ok::<SplitState, Seq<char>>(init_state()));
    }
    while i < lines.len()
        invariant
            dv == lines.deep_view(),
            i <= lines.len(),
            split_upto(dv, i as int) == Ok::<SplitState, Seq<char>>(
                SplitState {
                    units: units.deep_view(),
                    stage: stage,
                    version: version.deep_view(),
                    acc: acc@,
                    map: map@,
                },
            ),
        decreases lines.len() - i,
    {
        let ghost st0 = SplitState {
            units: units.deep_view(),
            stage: stage,
            version: version.deep_view(),
            acc: acc@,
            map: map@,
        };
        let line: &String = &lines[i];
        proof {
            assert(dv[i as int] == line@);
            assert(split_upto(dv, i as int + 1) == split_step(st0, dv[i as int], i));
        }
        if contains_substr(line.as_str(), "//#") {
            let toks = split_on_char(line.as_str(), ' ');
            proof {
                assert(toks.deep_view() == line_tokens(line@));
                assert(toks@.len() == toks.deep_view().len());
            }
            if toks.len() >= 2 && contains_substr(toks[1].as_str(), "TYPE") {
                if toks.len() >= 3 {
                    proof {
                        assert(toks.deep_view()[2] == toks@[2]@);
                    }
                    match parse_shader_kind(toks[2].as_str()) {
                        Some(k) => {
                            match stage {
                                Some(prev_kind) => {
                                    let unit = LogicalUnit {
                                        stage: prev_kind,
                                        version: clone_version(&version),
                                        source_text: acc,
                                        line_map: map,
                                    };
                                    let ghost old_units = units.deep_view();
                                    units.push(unit);
                                    acc = String::new();
                                    map = Vec::new();
                                    proof {
                                        assert(units.deep_view() =~~= old_units.push(unit@));
                                        assert(unit@ =~~= UnitModel {
                                            stage: prev_kind,
                                            version: st0.version,
                                            source: st0.acc,
                                            map: st0.map,
                                        });
                                        assert(units.deep_view() =~~= flush_units(st0));
                                    }
                                },
                                None => {
                                    acc = String::new();
                                    map = Vec::new();
                                    proof {
                                        assert(units.deep_view() =~~= flush_units(st0));
                                    }
                                },
                            }
                            stage = Some(k);
                            proof {
                                let st1 = SplitState {
                                    units: units.deep_view(),
                                    stage: stage,
                                    version: version.deep_view(),
                                    acc: acc@,
                                    map: map@,
                                };
                                assert(split_step(st0, dv[i as int], i) == Ok::<
                                    SplitState,
                                    Seq<char>,
                                >(st1));
                            }
                        },
                        None => {
                            let tok = toks[2].clone();
                            proof {
                                assert(split_step(st0, dv[i as int], i) == Err::<
                                    SplitState,
                                    Seq<char>,
                                >(tok@));
                                lemma_split_upto_err(dv, i as int + 1, dv.len() as int);
                            }
                            return Err(CompilerError::UnknownShaderType(tok));
                        },
                    }
                }
            } else if toks.len() >= 3 && contains_substr(toks[1].as_str(), "VERSION") {
                proof {
                    assert(toks.deep_view()[1] == toks@[1]@);
                    assert(toks.deep_view()[2] == toks@[2]@);
                }
                version = Some(toks[2].clone());
                proof {
                    let st1 = SplitState {
                        units: units.deep_view(),
                        stage: stage,
                        version: version.deep_view(),
                        acc: acc@,
                        map: map@,
                    };
                    assert(split_step(st0, dv[i as int], i) == Ok::<SplitState, Seq<char>>(st1));
                }
            } else {
                proof {
                    assert(toks.deep_view().len() >= 2 ==> toks.deep_view()[1] == toks@[1]@);
                    assert(split_step(st0, dv[i as int], i) == Ok::<SplitState, Seq<char>>(st0));
                }
            }
        } else if acc.as_str().is_empty() {
            if !line.as_str().is_empty() {
                acc = line.clone();
                let mut m: Vec<usize> = Vec::new();
                m.push(i);
                map = m;
                proof {
                    assert(map@ =~= seq![i]);
                    let st1 = SplitState {
                        units: units.deep_view(),
                        stage: stage,
                        version: version.deep_view(),
                        acc: acc@,
                        map: map@,
                    };
                    assert(split_step(st0, dv[i as int], i) == Ok::<SplitState, Seq<char>>(st1));
                }
            }
        } else if !line.as_str().is_empty() && !starts_with_str(line.as_str(), "//") {
            acc.append("\n");
            acc.append(line.as_str());
            map.push(i);
            proof {
                reveal_strlit("\n");
                assert("\n"@ =~= seq!['\n']);
                assert(acc@ =~= st0.acc + seq!['\n'] + line@);
                let st1 = SplitState {
                    units: units.deep_view(),
                    stage: stage,
                    version: version.deep_view(),
                    acc: acc@,
                    map: map@,
                };
                assert(split_step(st0, dv[i as int], i) == Ok::<SplitState, Seq<char>>(st1));
            }
        }
        i += 1;
    }
    let ghost st_final = SplitState {
        units: units.deep_view(),
        stage: stage,
        version: version.deep_view(),
        acc: acc@,
        map: map@,
    };
    proof {
        assert(dv.len() == lines@.len());
        assert(split_result(dv) == Ok::<Seq<UnitModel>, Seq<char>>(flush_units(st_final)));
    }
    match stage {
        Some(last_kind) => {
            let unit = LogicalUnit {
                stage: last_kind,
                version: version,
                source_text: acc,
                line_map: map,
            };
            let ghost old_units = units.deep_view();
            units.push(unit);
            proof {
                assert(units.deep_view() =~~= old_units.push(unit@));
                assert(units.deep_view() =~~= flush_units(st_final));
            }
            Ok(units)
        },
        None => {
            proof {
                assert(units.deep_view() =~~= flush_units(st_final));
            }
            Ok(units)
        },
    }
}

} // verus!
