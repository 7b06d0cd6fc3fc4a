use crate::decimal::{decimal_digits, decimal_of, parse_decimal, to_decimal};
use crate::device::{Access, Bus, BusCall, Device};
use crate::error::{
    fails_not_found, fails_unsupported, gives_content, gives_listing, names_view, not_found,
    unsupported, Entry, FsError,
};
use crate::pll::{optimal_pll_config, pll_config};
use crate::registry::Registry;
use vstd::prelude::*;
use vstd::string::StringExecFns;

verus! {

/// The bring-up and maintenance procedures a camera model offers.
#[derive(Clone, Copy, PartialEq, Eq, Debug)]
pub enum ScriptKind {
    /// Hard resets the sensor and brings it into standby.
    Reset,
    /// Starts up the sensor in default settings.
    Kick,
    /// Hard resets an AR0331 sensor and brings it into standby.
    ResetAr0331,
}

/// The device a step acts on.
#[derive(Clone, Copy, PartialEq, Eq, Debug)]
pub enum Target {
    /// The image sensor's register bus.
    Sensor,
    /// The sensor's control lines (such as its reset line).
    SensorIo,
}

/// One hardware action of a script.
pub enum Action {
    Write(Access, String, u64),
    Read(Access, String),
    Delay(u64),
}

pub struct Step {
    pub target: Target,
    pub action: Action,
}

pub enum ActionView {
    Write(Access, Seq<char>, u64),
    Read(Access, Seq<char>),
    Delay(u64),
}

pub struct StepView {
    pub target: Target,
    pub action: ActionView,
}

impl View for Step {
    type V = StepView;

    open spec fn view(&self) -> StepView {
        StepView {
            target: self.target,
            action: match self.action {
                Action::Write(a, r, v) => ActionView::Write(a, r@, v),
                Action::Read(a, r) => ActionView::Read(a, r@),
                Action::Delay(ms) => ActionView::Delay(ms),
            },
        }
    }
}

pub open spec fn steps_view(s: Seq<Step>) -> Seq<StepView> {
    s.map_values(|x: Step| x@)
}

pub open spec fn w(t: Target, a: Access, reg: Seq<char>, v: u64) -> StepView {
    StepView { target: t, action: ActionView::Write(a, reg, v) }
}

pub open spec fn rd(t: Target, a: Access, reg: Seq<char>) -> StepView {
    StepView { target: t, action: ActionView::Read(a, reg) }
}

pub open spec fn wait(t: Target, ms: u64) -> StepView {
    StepView { target: t, action: ActionView::Delay(ms) }
}

/// Pulse the reset line, then take the sensor out of software reset and start streaming.
pub open spec fn reset_plan() -> Seq<StepView> {
    seq![
        w(Target::SensorIo, Access::Raw, "reset"@, 1),
        wait(Target::SensorIo, 10),
        w(Target::SensorIo, Access::Raw, "reset"@, 0),
        w(Target::Sensor, Access::Cooked, "software_reset"@, 0),
        w(Target::Sensor, Access::Cooked, "stream"@, 1),
    ]
}

/// The full start-up sequence, with the PLL pre-divider and multiplier given.
pub open spec fn kick_plan(pre_pll_clk_div: u64, pll_multiplier: u64) -> Seq<StepView> {
    seq![
        w(Target::SensorIo, Access::Raw, "reset"@, 7),
        wait(Target::SensorIo, 1),
        w(Target::SensorIo, Access::Raw, "reset"@, 0),
        wait(Target::SensorIo, 1),
        w(Target::SensorIo, Access::Raw, "reset"@, 7),
        w(Target::Sensor, Access::Raw, "magic_init_config"@, 0xa114),
        w(Target::Sensor, Access::Raw, "magic_init_start"@, 0x0070),
        wait(Target::Sensor, 1),
        rd(Target::Sensor, Access::Raw, "chip_version_reg"@),
        rd(Target::Sensor, Access::Raw, "reserved_chiprev"@),
        rd(Target::Sensor, Access::Raw, "test_data_red"@),
        w(Target::Sensor, Access::Raw, "vt_pix_clk_div"@, 6),
        w(Target::Sensor, Access::Raw, "vt_sys_clk_div"@, 2),
        w(Target::Sensor, Access::Raw, "pre_pll_clk_div"@, pre_pll_clk_div),
        w(Target::Sensor, Access::Raw, "pll_multiplier"@, pll_multiplier),
        w(Target::Sensor, Access::Raw, "op_pix_clk_div"@, 12),
        w(Target::Sensor, Access::Raw, "op_sys_clk_div"@, 2),
        wait(Target::Sensor, 1),
        w(Target::Sensor, Access::Raw, "data_format_bits"@, 0x0c0c),
        w(Target::Sensor, Access::Raw, "datapath_select"@, 0x200),
        w(Target::Sensor, Access::Raw, "hispi_control_status"@, 0x8400),
        w(Target::Sensor, Access::Raw, "mipi_config_status"@, 0xc),
        w(Target::Sensor, Access::Raw, "serial_format"@, 0x0304),
        w(Target::Sensor, Access::Raw, "test_pattern_mode"@, 0),
        w(Target::Sensor, Access::Raw, "reset_register"@, 0x10),
        w(Target::Sensor, Access::Raw, "test_raw_mode"@, 2),
        w(Target::Sensor, Access::Raw, "data_pedestal"@, 0),
        w(Target::Sensor, Access::Raw, "analog_gain"@, 0x0010),
        w(Target::Sensor, Access::Raw, "global_gain"@, 0x0080),
        w(Target::Sensor, Access::Raw, "coarse_integration_time"@, 1200),
        w(Target::Sensor, Access::Raw, "fine_integration_time"@, 0),
        w(Target::Sensor, Access::Raw, "hispi_timing"@, 0x8000),
        w(Target::Sensor, Access::Raw, "mode_select"@, 1),
    ]
}

fn write_step(target: Target, access: Access, reg: &str, value: u64) -> (r: Step)
    ensures
        r@ == w(target, access, reg@, value),
{
    Step { target, action: Action::Write(access, String::from_str(reg), value) }
}

fn read_step(target: Target, access: Access, reg: &str) -> (r: Step)
    ensures
        r@ == rd(target, access, reg@),
{
    Step { target, action: Action::Read(access, String::from_str(reg)) }
}

fn delay_step(target: Target, millis: u64) -> (r: Step)
    ensures
        r@ == wait(target, millis),
{
    Step { target, action: Action::Delay(millis) }
}

/// The steps of the reset procedure.
pub fn reset_steps() -> (r: Vec<Step>)
    ensures
        steps_view(r@) == reset_plan(),
{
    let r = vec![
        write_step(Target::SensorIo, Access::Raw, "reset", 1),
        delay_step(Target::SensorIo, 10),
        write_step(Target::SensorIo, Access::Raw, "reset", 0),
        write_step(Target::Sensor, Access::Cooked, "software_reset", 0),
        write_step(Target::Sensor, Access::Cooked, "stream", 1),
    ];
    assert(steps_view(r@) =~= reset_plan());
    r
}

/// The steps of the start-up procedure, for the PLL settings given.
pub fn kick_steps(pre_pll_clk_div: u64, pll_multiplier: u64) -> (r: Vec<Step>)
    ensures
        steps_view(r@) == kick_plan(pre_pll_clk_div, pll_multiplier),
{
    let s = Target::Sensor;
    let io = Target::SensorIo;
    let raw = Access::Raw;
    let r = vec![
        write_step(io, raw, "reset", 7),
        delay_step(io, 1),
        write_step(io, raw, "reset", 0),
        delay_step(io, 1),
        write_step(io, raw, "reset", 7),
        write_step(s, raw, "magic_init_config", 0xa114),
        write_step(s, raw, "magic_init_start", 0x0070),
        delay_step(s, 1),
        read_step(s, raw, "chip_version_reg"),
        read_step(s, raw, "reserved_chiprev"),
        read_step(s, raw, "test_data_red"),
        write_step(s, raw, "vt_pix_clk_div", 6),
        write_step(s, raw, "vt_sys_clk_div", 2),
        write_step(s, raw, "pre_pll_clk_div", pre_pll_clk_div),
        write_step(s, raw, "pll_multiplier", pll_multiplier),
        write_step(s, raw, "op_pix_clk_div", 12),
        write_step(s, raw, "op_sys_clk_div", 2),
        delay_step(s, 1),
        write_step(s, raw, "data_format_bits", 0x0c0c),
        write_step(s, raw, "datapath_select", 0x200),
        write_step(s, raw, "hispi_control_status", 0x8400),
        write_step(s, raw, "mipi_config_status", 0xc),
        write_step(s, raw, "serial_format", 0x0304),
        write_step(s, raw, "test_pattern_mode", 0),
        write_step(s, raw, "reset_register", 0x10),
        write_step(s, raw, "test_raw_mode", 2),
        write_step(s, raw, "data_pedestal", 0),
        write_step(s, raw, "analog_gain", 0x0010),
        write_step(s, raw, "global_gain", 0x0080),
        write_step(s, raw, "coarse_integration_time", 1200),
        write_step(s, raw, "fine_integration_time", 0),
        write_step(s, raw, "hispi_timing", 0x8000),
        write_step(s, raw, "mode_select", 1),
    ];
    assert(steps_view(r@) =~= kick_plan(pre_pll_clk_div, pll_multiplier));
    r
}

/// The sensor's input clock, in Hz.
pub const EXTCLK: u64 = 24000000;

/// The VCO frequency for 12 bit output on four HiSPi lanes, in Hz.
pub const VCO_HISPI_4LANES_12BIT: u64 = 588000000;

/// The steps a script of kind `kind` carries out when triggered.
pub open spec fn plan_of(kind: ScriptKind) -> Seq<StepView> {
    match kind {
        ScriptKind::Kick => {
            let (d, m) = pll_config(EXTCLK as nat, VCO_HISPI_4LANES_12BIT as nat);
            kick_plan(d as u64, m as u64)
        },
        _ => reset_plan(),
    }
}

/// The fields a script of kind `kind` declares.
pub open spec fn declared_fields(kind: ScriptKind) -> Seq<Seq<char>> {
    match kind {
        ScriptKind::Kick => Seq::empty(),
        _ => seq!["test"@],
    }
}

/// The human-readable description of a script of kind `kind`.
pub open spec fn description_of(kind: ScriptKind) -> Seq<char> {
    match kind {
        ScriptKind::Reset => "hard resets the sensor and brings it into standby\n"@,
        ScriptKind::Kick => "start up the sensor in default settings"@,
        ScriptKind::ResetAr0331 => "hard resets the ar0331 and brings it into standby\n"@,
    }
}

/// A procedure of the camera model, with the values of its declared fields.
pub struct Script {
    kind: ScriptKind,
    fields: Registry<u8>,
}

impl Script {
    pub closed spec fn kind_of(&self) -> ScriptKind {
        self.kind
    }

    /// The names of the script's declared fields, in order.
    pub closed spec fn field_names(&self) -> Seq<Seq<char>> {
        self.fields.keys()
    }

    /// The value of field `name`.
    pub closed spec fn field_value(&self, name: Seq<char>) -> Option<u8> {
        self.fields.lookup(name)
    }

    pub closed spec fn wf(&self) -> bool {
        &&& self.fields.wf()
        &&& forall|k: Seq<char>| #[trigger] self.field_value(k) is Some <==> self.field_names().contains(k)
    }

    /// A script of kind `kind`, with every declared field at zero.
    pub fn new(kind: ScriptKind) -> (r: Script)
        ensures
            r.wf(),
            r.kind_of() == kind,
            r.field_names() == declared_fields(kind),
            forall|k: Seq<char>| r.field_names().contains(k) ==> #[trigger] r.field_value(k) == Some(0u8),
    {
        let mut fields: Registry<u8> = Registry::new();
        match kind {
            ScriptKind::Kick => {},
            _ => {
                fields.add(String::from_str("test"), 0);
            },
        }
        let r = Script { kind, fields };
        proof {
            assert(r.field_names() =~= declared_fields(kind));
            if kind != ScriptKind::Kick {
                r.fields.lemma_index_of(0);
            }
        }
        r
    }

    pub fn kind(&self) -> (r: ScriptKind)
        ensures
            r == self.kind_of(),
    {
        self.kind
    }

    pub fn description(&self) -> (r: &'static str)
        ensures
            r@ == description_of(self.kind_of()),
    {
        match self.kind {
            ScriptKind::Reset => "hard resets the sensor and brings it into standby\n",
            ScriptKind::Kick => "start up the sensor in default settings",
            ScriptKind::ResetAr0331 => "hard resets the ar0331 and brings it into standby\n",
        }
    }

    /// Whether the node at `path[start..]` below the script is a directory.
    pub fn is_dir(&self, path: &Vec<String>, start: usize) -> (r: Result<bool, FsError>)
        requires
            self.wf(),
            start <= path@.len(),
        ensures
            ({
                let p = names_view(path@).skip(start as int);
                &&& p.len() == 0 ==> r == Ok::<bool, FsError>(true)
                &&& p.len() > 0 && !self.field_names().contains(p[0]) ==> fails_not_found(r, p[0])
                &&& p.len() == 1 && self.field_names().contains(p[0]) ==> r == Ok::<bool, FsError>(false)
                &&& p.len() > 1 && self.field_names().contains(p[0]) ==> fails_not_found(r, p[1])
            }),
    {
        if start == path.len() {
            return Ok(true);
        }
        let f = &path[start];
        if self.fields.find(f).is_none() {
            return Err(not_found(f));
        }
        if start + 1 == path.len() {
            Ok(false)
        } else {
            Err(not_found(&path[start + 1]))
        }
    }

    /// Reads the node at `path[start..]`: the field names, or a field's value in decimal.
    pub fn read(&self, path: &Vec<String>, start: usize) -> (r: Result<Entry, FsError>)
        requires
            self.wf(),
            start <= path@.len(),
        ensures
            ({
                let p = names_view(path@).skip(start as int);
                &&& p.len() == 0 ==> gives_listing(r, self.field_names())
                &&& p.len() > 0 && !self.field_names().contains(p[0]) ==> fails_not_found(r, p[0])
                &&& p.len() == 1 && self.field_names().contains(p[0])
                    ==> gives_content(r, decimal_digits(self.field_value(p[0])->Some_0 as nat))
                &&& p.len() > 1 && self.field_names().contains(p[0]) ==> fails_not_found(r, p[1])
            }),
    {
        if start == path.len() {
            return Ok(Entry::Directory(self.fields.names()));
        }
        let f = &path[start];
        match self.fields.find(f) {
            None => Err(not_found(f)),
            Some(i) => {
                if start + 1 < path.len() {
                    return Err(not_found(&path[start + 1]));
                }
                proof { self.fields.lemma_index_of(i as int); }
                Ok(Entry::Content(to_decimal(*self.fields.get(i) as u64)))
            },
        }
    }

    /// Sets the field at `path[start..]` to the decimal number in `value`.
    pub fn write(&mut self, path: &Vec<String>, start: usize, value: &Vec<u8>) -> (r: Result<(), FsError>)
        requires
            old(self).wf(),
            start <= path@.len(),
        ensures
            final(self).wf(),
            final(self).kind_of() == old(self).kind_of(),
            final(self).field_names() == old(self).field_names(),
            ({
                let p = names_view(path@).skip(start as int);
                let known = p.len() > 0 && old(self).field_names().contains(p[0]);
                let fits = decimal_of(value@) matches Some(v) && v <= 255;
                &&& p.len() == 0 ==> fails_unsupported(r, "write"@)
                &&& p.len() > 0 && !known ==> fails_not_found(r, p[0])
                &&& p.len() > 1 && known ==> fails_not_found(r, p[1])
                &&& p.len() == 1 && known && !fits ==> fails_unsupported(r, "parse"@)
                &&& (r is Ok <==> p.len() == 1 && known && fits)
                &&& r is Ok ==> final(self).field_value(p[0]) == Some(decimal_of(value@)->Some_0 as u8)
                &&& forall|k: Seq<char>| !(r is Ok && k == p[0])
                    ==> #[trigger] final(self).field_value(k) == old(self).field_value(k)
            }),
    {
        if start == path.len() {
            return Err(unsupported("write", "a script"));
        }
        let f = &path[start];
        match self.fields.find(f) {
            None => Err(not_found(f)),
            Some(i) => {
                if start + 1 < path.len() {
                    return Err(not_found(&path[start + 1]));
                }
                match parse_decimal(value) {
                    Some(v) => {
                        if v > 255 {
                            return Err(unsupported("parse", "a value above 255"));
                        }
                        let cell = self.fields.get_mut(i);
                        *cell = v as u8;
                        proof {
                            self.fields.lemma_index_of(i as int);
                            assert forall|k: Seq<char>| k != f@
                                implies #[trigger] self.field_value(k) == old(self).field_value(k) by {
                                if old(self).field_names().contains(k) {
                                    let j = old(self).fields.index_of(k)->Some_0;
                                    old(self).fields.lemma_index_of(j);
                                    self.fields.lemma_index_of(j);
                                }
                            }
                            assert forall|k: Seq<char>| #[trigger] self.field_value(k) is Some
                                <==> self.field_names().contains(k) by {
                                if k != f@ {
                                    assert(old(self).field_value(k) is Some <==> old(self).field_names().contains(k));
                                }
                            }
                        }
                        Ok(())
                    },
                    None => Err(unsupported("parse", "a value that is not a decimal number")),
                }
            },
        }
    }

    /// The script's directory listing: its declared fields, then the trigger `value`.
    pub fn listing(&self) -> (r: Vec<String>)
        requires
            self.wf(),
        ensures
            names_view(r@) == self.field_names().push("value"@),
    {
        let mut names = self.fields.names();
        let ghost before = names@;
        names.push(String::from_str("value"));
        assert(names_view(names@) =~= names_view(before).push("value"@));
        names
    }

    /// Reading the trigger: none of the built-in scripts reports anything there.
    pub fn read_value(&self) -> (r: Result<Vec<u8>, FsError>)
        ensures
            fails_unsupported(r, "read"@),
    {
        Err(unsupported("read", "a script trigger"))
    }

    /// The steps that triggering the script carries out.
    pub fn steps(&self) -> (r: Vec<Step>)
        ensures
            steps_view(r@) == plan_of(self.kind_of()),
    {
        match self.kind {
            ScriptKind::Kick => {
                let (d, m) = optimal_pll_config(EXTCLK, VCO_HISPI_4LANES_12BIT);
                kick_steps(d, m)
            },
            _ => reset_steps(),
        }
    }
}

/// Whether step `s` names a register that its target device has.
pub open spec fn step_ok(s: StepView, sensor_regs: Seq<Seq<char>>, io_regs: Seq<Seq<char>>) -> bool {
    let regs = if s.target == Target::Sensor { sensor_regs } else { io_regs };
    match s.action {
        ActionView::Write(_, r, _) => regs.contains(r),
        ActionView::Read(_, r) => regs.contains(r),
        ActionView::Delay(_) => true,
    }
}

/// How many steps from the start of `plan` name registers that exist.
pub open spec fn ok_run(plan: Seq<StepView>, sensor_regs: Seq<Seq<char>>, io_regs: Seq<Seq<char>>) -> nat
    decreases plan.len(),
{
    if plan.len() == 0 {
        0
    } else if step_ok(plan[0], sensor_regs, io_regs) {
        1 + ok_run(plan.drop_first(), sensor_regs, io_regs)
    } else {
        0
    }
}

/// What register `k` of target `t` holds after step `s`, having held `prev`.
pub open spec fn after_step(s: StepView, t: Target, k: Seq<char>, prev: Option<u64>) -> Option<u64> {
    match s.action {
        ActionView::Write(_, r, v) => if s.target == t && r == k {
            Some(v)
        } else {
            prev
        },
        _ => prev,
    }
}

/// What register `k` of target `t` holds after all of `plan`, having held `init`.
pub open spec fn written(plan: Seq<StepView>, t: Target, k: Seq<char>, init: Option<u64>) -> Option<u64>
    decreases plan.len(),
{
    if plan.len() == 0 {
        init
    } else {
        after_step(plan.last(), t, k, written(plan.drop_last(), t, k, init))
    }
}

/// When the first `i` steps of `plan` name existing registers and step `i`
/// does not (or there is none), the run of good steps is `i` long.
pub proof fn lemma_ok_run(plan: Seq<StepView>, sr: Seq<Seq<char>>, ior: Seq<Seq<char>>, i: int)
    requires
        0 <= i <= plan.len(),
        forall|j: int| 0 <= j < i ==> step_ok(#[trigger] plan[j], sr, ior),
        i == plan.len() || !step_ok(plan[i], sr, ior),
    ensures
        ok_run(plan, sr, ior) == i,
    decreases i,
{
    if i > 0 {
        let rest = plan.drop_first();
        assert forall|j: int| 0 <= j < i - 1 implies step_ok(#[trigger] rest[j], sr, ior) by {
            assert(rest[j] == plan[j + 1]);
        }
        if i < plan.len() {
            assert(rest[i - 1] == plan[i]);
        }
        lemma_ok_run(rest, sr, ior, i - 1);
    }
}

/// The bus calls step `s` makes on a device with registers `regs`: a wait
/// always; a register access only on the bus (not the mock) and only for a
/// register the device has.
pub open spec fn step_calls(s: StepView, mocked: bool, regs: Seq<Seq<char>>) -> Seq<BusCall> {
    match s.action {
        ActionView::Delay(ms) => seq![BusCall::Delay(ms)],
        ActionView::Write(a, r, v) => if mocked || !regs.contains(r) {
            Seq::empty()
        } else {
            seq![BusCall::Write(a, r, v)]
        },
        ActionView::Read(a, r) => if mocked || !regs.contains(r) {
            Seq::empty()
        } else {
            seq![BusCall::Read(a, r)]
        },
    }
}

/// The bus calls that step `s` makes on target `t`.
pub open spec fn issued(
    s: StepView,
    t: Target,
    mocked: bool,
    sensor_regs: Seq<Seq<char>>,
    io_regs: Seq<Seq<char>>,
) -> Seq<BusCall> {
    if s.target != t {
        Seq::empty()
    } else {
        step_calls(s, mocked, if t == Target::Sensor { sensor_regs } else { io_regs })
    }
}

/// The bus calls that all of `plan` makes on target `t`, in order.
pub open spec fn plan_calls(
    plan: Seq<StepView>,
    t: Target,
    mocked: bool,
    sensor_regs: Seq<Seq<char>>,
    io_regs: Seq<Seq<char>>,
) -> Seq<BusCall>
    decreases plan.len(),
{
    if plan.len() == 0 {
        Seq::empty()
    } else {
        plan_calls(plan.drop_last(), t, mocked, sensor_regs, io_regs) + issued(
            plan.last(),
            t,
            mocked,
            sensor_regs,
            io_regs,
        )
    }
}

/// Carries out one step on device `d`.
fn apply_step<B: Bus>(step: &Step, d: &mut Device<B>) -> (r: Result<(), FsError>)
    requires
        old(d).wf(),
    ensures
        final(d).wf(),
        final(d).same_shape(old(d)),
        r is Ok ==> step_ok(step@, old(d).register_names(), old(d).register_names()),
        old(d).is_mocked() && step_ok(step@, old(d).register_names(), old(d).register_names()) ==> r is Ok,
        r is Ok && old(d).is_mocked() ==> forall|k: Seq<char>|
            #[trigger] final(d).mocked_value(k) == after_step(step@, step.target, k, old(d).mocked_value(k)),
        r is Err ==> final(d).same_state(old(d)),
        final(d).bus_calls() == old(d).bus_calls() + step_calls(step@, old(d).is_mocked(), old(d).register_names()),
{
    match &step.action {
        Action::Write(a, reg, v) => {
            let r = d.write_register(*a, reg, *v);
            proof {
                assert(d.bus_calls() =~= old(d).bus_calls() + step_calls(step@, old(d).is_mocked(), old(d).register_names()));
                if r is Ok && !old(d).is_mocked() {
                    assert(old(d).register_names().contains(reg@));
                }
            }
            r
        },
        Action::Read(a, reg) => {
            let r = d.read_register(*a, reg);
            assert(d.bus_calls() =~= old(d).bus_calls() + step_calls(step@, old(d).is_mocked(), old(d).register_names()));
            match r {
                Ok(_) => Ok(()),
                Err(e) => Err(e),
            }
        },
        Action::Delay(ms) => {
            d.delay(*ms);
            assert(d.bus_calls() =~= old(d).bus_calls() + step_calls(step@, old(d).is_mocked(), old(d).register_names()));
            Ok(())
        },
    }
}

/// Steps `0..m` of `plan` name existing registers, step `m` failed, and the
/// bus calls of steps `0..=m` were made, in order, and no others.
pub open spec fn stopped_at<B: Bus>(
    plan: Seq<StepView>,
    m: int,
    s0: &Device<B>,
    s1: &Device<B>,
    io0: &Device<B>,
    io1: &Device<B>,
) -> bool {
    let sr = s0.register_names();
    let ior = io0.register_names();
    &&& forall|j: int| 0 <= j < m ==> step_ok(#[trigger] plan[j], sr, ior)
    &&& s1.bus_calls() == s0.bus_calls() + plan_calls(plan.take(m + 1), Target::Sensor, s0.is_mocked(), sr, ior)
    &&& io1.bus_calls() == io0.bus_calls() + plan_calls(plan.take(m + 1), Target::SensorIo, io0.is_mocked(), sr, ior)
}

/// Carries out `steps` in order on the sensor and its control lines, and stops
/// at the first step that fails, leaving what earlier steps did in place.
pub fn run_steps<B: Bus>(steps: &Vec<Step>, sensor: &mut Device<B>, io: &mut Device<B>) -> (r: Result<(), FsError>)
    requires
        old(sensor).wf(),
        old(io).wf(),
    ensures
        final(sensor).wf(),
        final(io).wf(),
        final(sensor).same_shape(old(sensor)),
        final(io).same_shape(old(io)),
        ({
            let plan = steps_view(steps@);
            let sr = old(sensor).register_names();
            let ior = old(io).register_names();
            let n = ok_run(plan, sr, ior) as int;
            &&& r is Ok ==> n == plan.len()
            &&& old(sensor).is_mocked() && old(io).is_mocked() ==> (r is Ok <==> n == plan.len())
            &&& old(sensor).is_mocked() && old(io).is_mocked() ==> forall|k: Seq<char>|
                #[trigger] final(sensor).mocked_value(k)
                == written(plan.take(n), Target::Sensor, k, old(sensor).mocked_value(k))
            &&& old(sensor).is_mocked() && old(io).is_mocked() ==> forall|k: Seq<char>|
                #[trigger] final(io).mocked_value(k)
                == written(plan.take(n), Target::SensorIo, k, old(io).mocked_value(k))
            &&& r is Ok ==> final(sensor).bus_calls()
                == old(sensor).bus_calls() + plan_calls(plan, Target::Sensor, old(sensor).is_mocked(), sr, ior)
            &&& r is Ok ==> final(io).bus_calls()
                == old(io).bus_calls() + plan_calls(plan, Target::SensorIo, old(io).is_mocked(), sr, ior)
            &&& r is Err ==> exists|m: int| 0 <= m < plan.len() && stopped_at(
                plan, m, old(sensor), final(sensor), old(io), final(io))
        }),
{
    let ghost plan = steps_view(steps@);
    let ghost sr = sensor.register_names();
    let ghost ior = io.register_names();
    let ghost s0 = *sensor;
    let ghost io0 = *io;
    let mut i: usize = 0;
    while i < steps.len()
        invariant
            plan == steps_view(steps@),
            s0 == *old(sensor),
            io0 == *old(io),
            i <= steps@.len(),
            sensor.wf(),
            io.wf(),
            sensor.same_shape(&s0),
            io.same_shape(&io0),
            sr == s0.register_names(),
            ior == io0.register_names(),
            forall|j: int| 0 <= j < i ==> step_ok(#[trigger] plan[j], sr, ior),
            sensor.bus_calls() == s0.bus_calls() + plan_calls(plan.take(i as int), Target::Sensor, s0.is_mocked(), sr, ior),
            io.bus_calls() == io0.bus_calls() + plan_calls(plan.take(i as int), Target::SensorIo, io0.is_mocked(), sr, ior),
            s0.is_mocked() ==> forall|k: Seq<char>| #[trigger] sensor.mocked_value(k)
                == written(plan.take(i as int), Target::Sensor, k, s0.mocked_value(k)),
            io0.is_mocked() ==> forall|k: Seq<char>| #[trigger] io.mocked_value(k)
                == written(plan.take(i as int), Target::SensorIo, k, io0.mocked_value(k)),
        decreases steps@.len() - i,
    {
        let step = &steps[i];
        assert(plan[i as int] == step@);
        let ghost sb = *sensor;
        let ghost iob = *io;
        let r = match step.target {
            Target::Sensor => apply_step(step, sensor),
            Target::SensorIo => apply_step(step, io),
        };
        proof {
            let next = plan.take(i as int + 1);
            assert(next.drop_last() =~= plan.take(i as int));
            assert(next.last() == step@);
            assert forall|k: Seq<char>| #[trigger] sensor.default_of(k) == s0.default_of(k) by {
                assert(sensor.default_of(k) == sb.default_of(k));
            }
            assert forall|k: Seq<char>| #[trigger] io.default_of(k) == io0.default_of(k) by {
                assert(io.default_of(k) == iob.default_of(k));
            }
            assert(sensor.same_shape(&s0));
            assert(io.same_shape(&io0));
            assert(plan_calls(next, Target::Sensor, s0.is_mocked(), sr, ior)
                == plan_calls(plan.take(i as int), Target::Sensor, s0.is_mocked(), sr, ior)
                + issued(step@, Target::Sensor, s0.is_mocked(), sr, ior));
            assert(plan_calls(next, Target::SensorIo, io0.is_mocked(), sr, ior)
                == plan_calls(plan.take(i as int), Target::SensorIo, io0.is_mocked(), sr, ior)
                + issued(step@, Target::SensorIo, io0.is_mocked(), sr, ior));
            if step.target == Target::Sensor {
                assert(issued(step@, Target::SensorIo, io0.is_mocked(), sr, ior) =~= Seq::<BusCall>::empty());
                assert(io.bus_calls() =~= io0.bus_calls() + plan_calls(next, Target::SensorIo, io0.is_mocked(), sr, ior));
                assert(sensor.bus_calls() =~= s0.bus_calls() + plan_calls(next, Target::Sensor, s0.is_mocked(), sr, ior));
            } else {
                assert(issued(step@, Target::Sensor, s0.is_mocked(), sr, ior) =~= Seq::<BusCall>::empty());
                assert(sensor.bus_calls() =~= s0.bus_calls() + plan_calls(next, Target::Sensor, s0.is_mocked(), sr, ior));
                assert(io.bus_calls() =~= io0.bus_calls() + plan_calls(next, Target::SensorIo, io0.is_mocked(), sr, ior));
            }
        }
        if r.is_err() {
            proof {
                if s0.is_mocked() && io0.is_mocked() {
                    if step.target == Target::Sensor {
                        assert(!step_ok(step@, sr, sr));
                    } else {
                        assert(!step_ok(step@, ior, ior));
                    }
                    assert(!step_ok(plan[i as int], sr, ior));
                    lemma_ok_run(plan, sr, ior, i as int);
                }
                assert(stopped_at(plan, i as int, &s0, sensor, &io0, io));
            }
            return r;
        }
        i = i + 1;
        proof {
            if step.target == Target::Sensor {
                assert(step_ok(step@, sr, sr));
            } else {
                assert(step_ok(step@, ior, ior));
            }
            assert(step_ok(plan[i - 1], sr, ior));
            assert forall|k: Seq<char>| s0.is_mocked() implies #[trigger] sensor.mocked_value(k)
                == written(plan.take(i as int), Target::Sensor, k, s0.mocked_value(k)) by {
                assert(sensor.mocked_value(k) == after_step(step@, Target::Sensor, k, sb.mocked_value(k)));
            }
            assert forall|k: Seq<char>| io0.is_mocked() implies #[trigger] io.mocked_value(k)
                == written(plan.take(i as int), Target::SensorIo, k, io0.mocked_value(k)) by {
                assert(io.mocked_value(k) == after_step(step@, Target::SensorIo, k, iob.mocked_value(k)));
            }
        }
    }
    proof {
        lemma_ok_run(plan, sr, ior, i as int);
        assert(plan.take(i as int) =~= plan);
    }
    Ok(())
}

} // verus!
