use crate::camera::Camera;
use crate::device::{Bus, Device};
use crate::error::Answer;
use crate::device::{Access, BusCall};
use crate::script::{lemma_ok_run, ok_run, plan_calls, reset_plan, step_ok, written, Target};
use vstd::prelude::*;

verus! {

/// The listing of a script's directory, its declared fields followed by the
/// trigger entry, always holds `value` and every declared field.
pub proof fn script_listing_has_trigger(fields: Seq<Seq<char>>)
    ensures
        fields.push("value"@).contains("value"@),
        forall|f: Seq<char>| fields.contains(f) ==> #[trigger] fields.push("value"@).contains(f),
{
    assert(fields.push("value"@)[fields.len() as int] == "value"@);
    assert forall|f: Seq<char>| fields.contains(f) implies #[trigger] fields.push("value"@).contains(f) by {
        let i = choose|i: int| 0 <= i < fields.len() && fields[i] == f;
        assert(fields.push("value"@)[i] == f);
    }
}

/// For every script `s` of the camera, `scripts/s` is a directory and
/// `scripts/s/value` is a leaf.
pub proof fn trigger_is_a_leaf<B: Bus>(cam: &Camera<B>, s: Seq<char>)
    requires
        cam.script_names().contains(s),
    ensures
        cam.probe_path(seq!["scripts"@, s]) == Answer::Dir,
        cam.probe_path(seq!["scripts"@, s, "value"@]) == Answer::Leaf,
{
    reveal_strlit("camera_model");
    reveal_strlit("devices");
    reveal_strlit("scripts");
    assert("scripts"@ != "camera_model"@ && "scripts"@ != "devices"@) by {
        assert("scripts"@.len() != "camera_model"@.len());
        assert("scripts"@[0] != "devices"@[0]);
    }
    assert(seq!["scripts"@, s].skip(2) =~= Seq::<Seq<char>>::empty());
}

/// On a mock channel, a register that was just written reads back as the value written.
pub proof fn read_your_writes<B: Bus>(before: &Device<B>, after: &Device<B>, register: Seq<char>, value: u64)
    requires
        after.stored(before, register, value),
    ensures
        after.mocked_value(register) == Some(value),
        forall|k: Seq<char>| k != register ==> #[trigger] after.mocked_value(k) == before.mocked_value(k),
{
}

/// When the sensor has `software_reset` and `stream` and its control lines have
/// `reset`, every step of the reset procedure goes through. On mock memory the
/// reset line is then low, software reset off and streaming on. On the bus the
/// control lines get: reset high, a 10 ms wait, reset low; and the sensor gets:
/// software reset off, then streaming on; nothing else, in that order.
pub proof fn reset_runs_through(
    sensor_regs: Seq<Seq<char>>,
    io_regs: Seq<Seq<char>>,
    sensor_init: Option<u64>,
    io_init: Option<u64>,
)
    requires
        sensor_regs.contains("software_reset"@),
        sensor_regs.contains("stream"@),
        io_regs.contains("reset"@),
    ensures
        ok_run(reset_plan(), sensor_regs, io_regs) == reset_plan().len(),
        written(reset_plan(), Target::SensorIo, "reset"@, io_init) == Some(0u64),
        written(reset_plan(), Target::Sensor, "software_reset"@, sensor_init) == Some(0u64),
        written(reset_plan(), Target::Sensor, "stream"@, sensor_init) == Some(1u64),
        plan_calls(reset_plan(), Target::SensorIo, false, sensor_regs, io_regs) == seq![
            BusCall::Write(Access::Raw, "reset"@, 1),
            BusCall::Delay(10),
            BusCall::Write(Access::Raw, "reset"@, 0),
        ],
        plan_calls(reset_plan(), Target::Sensor, false, sensor_regs, io_regs) == seq![
            BusCall::Write(Access::Cooked, "software_reset"@, 0),
            BusCall::Write(Access::Cooked, "stream"@, 1),
        ],
{
    reveal_strlit("software_reset");
    reveal_strlit("stream");
    let plan = reset_plan();
    assert(plan.len() == 5);
    assert forall|j: int| 0 <= j < 5 implies step_ok(#[trigger] plan[j], sensor_regs, io_regs) by {}
    lemma_ok_run(plan, sensor_regs, io_regs, 5);
    assert("stream"@ != "software_reset"@) by {
        assert("stream"@[1] != "software_reset"@[1]);
    }
    let p4 = plan.drop_last();
    let p3 = p4.drop_last();
    assert(plan.last() == plan[4]);
    assert(p4.last() == plan[3]);
    assert(p3.last() == plan[2]);
    assert(written(plan, Target::Sensor, "stream"@, sensor_init) == Some(1u64));
    assert(written(p4, Target::Sensor, "software_reset"@, sensor_init) == Some(0u64));
    assert(written(plan, Target::Sensor, "software_reset"@, sensor_init) == Some(0u64));
    assert(written(p3, Target::SensorIo, "reset"@, io_init) == Some(0u64));
    assert(written(p4, Target::SensorIo, "reset"@, io_init) == Some(0u64));
    let p2 = p3.drop_last();
    let p1 = p2.drop_last();
    let p0 = p1.drop_last();
    assert(p2.last() == plan[1]);
    assert(p1.last() == plan[0]);
    assert(p0.len() == 0);
    let (sr, ior) = (sensor_regs, io_regs);
    assert(plan_calls(p0, Target::SensorIo, false, sr, ior) == Seq::<BusCall>::empty());
    assert(plan_calls(p0, Target::Sensor, false, sr, ior) == Seq::<BusCall>::empty());
    assert(plan_calls(p1, Target::SensorIo, false, sr, ior) =~= seq![BusCall::Write(Access::Raw, "reset"@, 1)]);
    assert(plan_calls(p2, Target::SensorIo, false, sr, ior)
        =~= seq![BusCall::Write(Access::Raw, "reset"@, 1), BusCall::Delay(10)]);
    assert(plan_calls(p3, Target::SensorIo, false, sr, ior) =~= seq![
        BusCall::Write(Access::Raw, "reset"@, 1),
        BusCall::Delay(10),
        BusCall::Write(Access::Raw, "reset"@, 0),
    ]);
    assert(plan_calls(p4, Target::SensorIo, false, sr, ior) =~= plan_calls(p3, Target::SensorIo, false, sr, ior));
    assert(plan_calls(plan, Target::SensorIo, false, sr, ior) =~= plan_calls(p4, Target::SensorIo, false, sr, ior));
    assert(plan_calls(p1, Target::Sensor, false, sr, ior) =~= Seq::<BusCall>::empty());
    assert(plan_calls(p2, Target::Sensor, false, sr, ior) =~= Seq::<BusCall>::empty());
    assert(plan_calls(p3, Target::Sensor, false, sr, ior) =~= Seq::<BusCall>::empty());
    assert(plan_calls(p4, Target::Sensor, false, sr, ior)
        =~= seq![BusCall::Write(Access::Cooked, "software_reset"@, 0)]);
    assert(plan_calls(plan, Target::Sensor, false, sr, ior) =~= seq![
        BusCall::Write(Access::Cooked, "software_reset"@, 0),
        BusCall::Write(Access::Cooked, "stream"@, 1),
    ]);
}

} // verus!
