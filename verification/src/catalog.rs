//! The descriptors of the built-in blocks whose logic this library holds,
//! and the traits that mark block kinds an engine can run.

use vstd::prelude::*;

use crate::desc::{BlockDesc, BlockDescView, BlockImplementation, PinDesc, PinDescView, RegisterableBlock};
use crate::text::{decimal_text, push_decimal};
use crate::timers::{CycleCount, OffDelay, OnDelay, OneShot, RateLimit, Runtime, SampleHold};

verus! {

/// A block kind an engine can schedule.
pub trait EngineBlock: RegisterableBlock {}

impl<T: RegisterableBlock> EngineBlock for T {}

/// A block kind the multi-threaded engine can schedule: it may move to, and
/// be shared with, other threads.
pub trait MtBlock: EngineBlock + Send + Sync {}

impl<T: EngineBlock + Send + Sync> MtBlock for T {}

/// The version every built-in block descriptor carries.
pub open spec fn core_version() -> Seq<char> {
    "0.1.0"@
}

/// A pin's descriptor.
pub open spec fn pin(name: Seq<char>, kind: Seq<char>) -> PinDescView {
    PinDescView { name, kind }
}

/// The descriptor of a built-in (core library, native) block.
pub open spec fn core_block(
    name: Seq<char>,
    dis: Seq<char>,
    category: Seq<char>,
    inputs: Seq<PinDescView>,
    outputs: Seq<PinDescView>,
) -> BlockDescView {
    BlockDescView {
        name,
        dis,
        library: "core"@,
        category,
        ver: core_version(),
        implementation: BlockImplementation::Native,
        inputs,
        outputs,
    }
}

fn core_desc(name: &str, dis: &str, category: &str, inputs: Vec<PinDesc>, outputs: Vec<PinDesc>) -> (d: BlockDesc)
    ensures
        d@ == core_block(
            name@,
            dis@,
            category@,
            inputs@.map_values(|p: PinDesc| p@),
            outputs@.map_values(|p: PinDesc| p@),
        ),
{
    BlockDesc {
        name: String::from_str(name),
        dis: String::from_str(dis),
        library: String::from_str("core"),
        category: String::from_str(category),
        ver: String::from_str("0.1.0"),
        implementation: BlockImplementation::Native,
        inputs,
        outputs,
    }
}

fn pins1(a: PinDesc) -> (v: Vec<PinDesc>)
    ensures
        v@.map_values(|p: PinDesc| p@) == seq![a@],
{
    let mut v = Vec::new();
    v.push(a);
    assert(v@.map_values(|p: PinDesc| p@) =~= seq![a@]);
    v
}

fn pins2(a: PinDesc, b: PinDesc) -> (v: Vec<PinDesc>)
    ensures
        v@.map_values(|p: PinDesc| p@) == seq![a@, b@],
{
    let mut v = Vec::new();
    v.push(a);
    v.push(b);
    assert(v@.map_values(|p: PinDesc| p@) =~= seq![a@, b@]);
    v
}

fn pins3(a: PinDesc, b: PinDesc, c: PinDesc) -> (v: Vec<PinDesc>)
    ensures
        v@.map_values(|p: PinDesc| p@) == seq![a@, b@, c@],
{
    let mut v = Vec::new();
    v.push(a);
    v.push(b);
    v.push(c);
    assert(v@.map_values(|p: PinDesc| p@) =~= seq![a@, b@, c@]);
    v
}

fn pins4(a: PinDesc, b: PinDesc, c: PinDesc, d: PinDesc) -> (v: Vec<PinDesc>)
    ensures
        v@.map_values(|p: PinDesc| p@) == seq![a@, b@, c@, d@],
{
    let mut v = Vec::new();
    v.push(a);
    v.push(b);
    v.push(c);
    v.push(d);
    assert(v@.map_values(|p: PinDesc| p@) =~= seq![a@, b@, c@, d@]);
    v
}

impl RegisterableBlock for OnDelay {
    open spec fn static_desc() -> BlockDescView {
        core_block(
            "OnDelay"@,
            "OnDelay"@,
            "timers"@,
            seq![pin("in"@, "Bool"@), pin("delay"@, "Number"@)],
            seq![pin("out"@, "Bool"@)],
        )
    }

    fn block_desc() -> (desc: BlockDesc) {
        core_desc(
            "OnDelay",
            "OnDelay",
            "timers",
            pins2(PinDesc::new("in", "Bool"), PinDesc::new("delay", "Number")),
            pins1(PinDesc::new("out", "Bool")),
        )
    }
}

impl RegisterableBlock for OffDelay {
    open spec fn static_desc() -> BlockDescView {
        core_block(
            "OffDelay"@,
            "OffDelay"@,
            "timers"@,
            seq![pin("in"@, "Bool"@), pin("delay"@, "Number"@)],
            seq![pin("out"@, "Bool"@)],
        )
    }

    fn block_desc() -> (desc: BlockDesc) {
        core_desc(
            "OffDelay",
            "OffDelay",
            "timers",
            pins2(PinDesc::new("in", "Bool"), PinDesc::new("delay", "Number")),
            pins1(PinDesc::new("out", "Bool")),
        )
    }
}

impl RegisterableBlock for OneShot {
    open spec fn static_desc() -> BlockDescView {
        core_block(
            "OneShot"@,
            "OneShot"@,
            "timers"@,
            seq![pin("in"@, "Bool"@), pin("width"@, "Number"@)],
            seq![pin("out"@, "Bool"@)],
        )
    }

    fn block_desc() -> (desc: BlockDesc) {
        core_desc(
            "OneShot",
            "OneShot",
            "timers",
            pins2(PinDesc::new("in", "Bool"), PinDesc::new("width", "Number")),
            pins1(PinDesc::new("out", "Bool")),
        )
    }
}

impl RegisterableBlock for CycleCount {
    open spec fn static_desc() -> BlockDescView {
        core_block(
            "CycleCount"@,
            "CycleCount"@,
            "timers"@,
            seq![pin("in"@, "Bool"@), pin("reset"@, "Bool"@)],
            seq![pin("out"@, "Number"@)],
        )
    }

    fn block_desc() -> (desc: BlockDesc) {
        core_desc(
            "CycleCount",
            "CycleCount",
            "timers",
            pins2(PinDesc::new("in", "Bool"), PinDesc::new("reset", "Bool")),
            pins1(PinDesc::new("out", "Number")),
        )
    }
}

impl RegisterableBlock for Runtime {
    open spec fn static_desc() -> BlockDescView {
        core_block(
            "Runtime"@,
            "Runtime"@,
            "timers"@,
            seq![pin("in"@, "Bool"@), pin("reset"@, "Bool"@)],
            seq![pin("hours"@, "Number"@)],
        )
    }

    fn block_desc() -> (desc: BlockDesc) {
        core_desc(
            "Runtime",
            "Runtime",
            "timers",
            pins2(PinDesc::new("in", "Bool"), PinDesc::new("reset", "Bool")),
            pins1(PinDesc::new("hours", "Number")),
        )
    }
}

impl RegisterableBlock for RateLimit {
    open spec fn static_desc() -> BlockDescView {
        core_block(
            "RateLimit"@,
            "RateLimit"@,
            "timers"@,
            seq![
                pin("in"@, "Number"@),
                pin("rising"@, "Number"@),
                pin("falling"@, "Number"@),
                pin("interval"@, "Number"@),
            ],
            seq![pin("out"@, "Number"@)],
        )
    }

    fn block_desc() -> (desc: BlockDesc) {
        core_desc(
            "RateLimit",
            "RateLimit",
            "timers",
            pins4(
                PinDesc::new("in", "Number"),
                PinDesc::new("rising", "Number"),
                PinDesc::new("falling", "Number"),
                PinDesc::new("interval", "Number"),
            ),
            pins1(PinDesc::new("out", "Number")),
        )
    }
}

impl RegisterableBlock for SampleHold {
    open spec fn static_desc() -> BlockDescView {
        core_block(
            "SampleHold"@,
            "SampleHold"@,
            "misc"@,
            seq![pin("in"@, "Null"@), pin("trigger"@, "Bool"@)],
            seq![pin("out"@, "Null"@)],
        )
    }

    fn block_desc() -> (desc: BlockDesc) {
        core_desc(
            "SampleHold",
            "SampleHold",
            "misc",
            pins2(PinDesc::new("in", "Null"), PinDesc::new("trigger", "Bool")),
            pins1(PinDesc::new("out", "Null")),
        )
    }
}

/// The occupancy-schedule block (logic in `schedule`).
pub struct Schedule;

/// The calendar block (logic in `calendar`).
pub struct Calendar;

/// The random-number block (logic in `misc`).
pub struct Random;

/// The boolean-parsing block (logic in `misc`).
pub struct ParseBool;

/// The concatenation block (logic in `strings`).
pub struct Concat;

/// The string-length block (logic in `strings`).
pub struct StrLen;

/// The find-and-replace block (logic in `strings`).
pub struct Replace;

impl RegisterableBlock for Schedule {
    open spec fn static_desc() -> BlockDescView {
        core_block(
            "Schedule"@,
            "Schedule"@,
            "time"@,
            seq![
                pin("start"@, "Str"@),
                pin("end"@, "Str"@),
                pin("days"@, "Str"@),
                pin("tzOffset"@, "Number"@),
            ],
            seq![pin("occupied"@, "Bool"@)],
        )
    }

    fn block_desc() -> (desc: BlockDesc) {
        core_desc(
            "Schedule",
            "Schedule",
            "time",
            pins4(
                PinDesc::new("start", "Str"),
                PinDesc::new("end", "Str"),
                PinDesc::new("days", "Str"),
                PinDesc::new("tzOffset", "Number"),
            ),
            pins1(PinDesc::new("occupied", "Bool")),
        )
    }
}

impl RegisterableBlock for Calendar {
    open spec fn static_desc() -> BlockDescView {
        core_block(
            "Calendar"@,
            "Calendar"@,
            "time"@,
            seq![pin("dates"@, "Str"@), pin("tzOffset"@, "Number"@)],
            seq![pin("out"@, "Bool"@)],
        )
    }

    fn block_desc() -> (desc: BlockDesc) {
        core_desc(
            "Calendar",
            "Calendar",
            "time",
            pins2(PinDesc::new("dates", "Str"), PinDesc::new("tzOffset", "Number")),
            pins1(PinDesc::new("out", "Bool")),
        )
    }
}

impl RegisterableBlock for Random {
    open spec fn static_desc() -> BlockDescView {
        core_block(
            "Random"@,
            "Random"@,
            "misc"@,
            seq![pin("freq"@, "Number"@), pin("min"@, "Number"@), pin("max"@, "Number"@)],
            seq![pin("out"@, "Number"@)],
        )
    }

    fn block_desc() -> (desc: BlockDesc) {
        core_desc(
            "Random",
            "Random",
            "misc",
            pins3(
                PinDesc::new("freq", "Number"),
                PinDesc::new("min", "Number"),
                PinDesc::new("max", "Number"),
            ),
            pins1(PinDesc::new("out", "Number")),
        )
    }
}

impl RegisterableBlock for ParseBool {
    open spec fn static_desc() -> BlockDescView {
        core_block(
            "ParseBool"@,
            "ParseBool"@,
            "misc"@,
            seq![pin("in"@, "Str"@)],
            seq![pin("out"@, "Bool"@)],
        )
    }

    fn block_desc() -> (desc: BlockDesc) {
        core_desc(
            "ParseBool",
            "ParseBool",
            "misc",
            pins1(PinDesc::new("in", "Str")),
            pins1(PinDesc::new("out", "Bool")),
        )
    }
}

/// The concatenation block's inputs: `in0` to `in15`, all texts.
pub open spec fn concat_inputs() -> Seq<PinDescView> {
    Seq::new(16, |i: int| pin("in"@ + decimal_text(i as nat), "Str"@))
}

impl RegisterableBlock for Concat {
    open spec fn static_desc() -> BlockDescView {
        core_block("Concat"@, "Concat"@, "string"@, concat_inputs(), seq![pin("out"@, "Str"@)])
    }

    fn block_desc() -> (desc: BlockDesc) {
        let mut inputs: Vec<PinDesc> = Vec::new();
        let mut i: u64 = 0;
        while i < 16
            invariant
                i <= 16,
                inputs@.map_values(|p: PinDesc| p@) == concat_inputs().subrange(0, i as int),
            decreases 16 - i,
        {
            let mut name = String::from_str("in");
            push_decimal(&mut name, i);
            let ghost before = inputs@.map_values(|p: PinDesc| p@);
            inputs.push(PinDesc { name, kind: String::from_str("Str") });
            assert(inputs@.map_values(|p: PinDesc| p@) =~= before.push(
                pin("in"@ + decimal_text(i as nat), "Str"@),
            ));
            assert(concat_inputs().subrange(0, i + 1) =~= concat_inputs().subrange(0, i as int).push(
                pin("in"@ + decimal_text(i as nat), "Str"@),
            ));
            i += 1;
        }
        assert(concat_inputs().subrange(0, 16) =~= concat_inputs());
        core_desc("Concat", "Concat", "string", inputs, pins1(PinDesc::new("out", "Str")))
    }
}

impl RegisterableBlock for StrLen {
    open spec fn static_desc() -> BlockDescView {
        core_block(
            "StrLen"@,
            "StringLen"@,
            "string"@,
            seq![pin("in"@, "Str"@)],
            seq![pin("out"@, "Number"@)],
        )
    }

    fn block_desc() -> (desc: BlockDesc) {
        core_desc(
            "StrLen",
            "StringLen",
            "string",
            pins1(PinDesc::new("in", "Str")),
            pins1(PinDesc::new("out", "Number")),
        )
    }
}

impl RegisterableBlock for Replace {
    open spec fn static_desc() -> BlockDescView {
        core_block(
            "Replace"@,
            "Replace"@,
            "string"@,
            seq![pin("in"@, "Str"@), pin("find"@, "Str"@), pin("replace"@, "Str"@)],
            seq![pin("out"@, "Str"@)],
        )
    }

    fn block_desc() -> (desc: BlockDesc) {
        core_desc(
            "Replace",
            "Replace",
            "string",
            pins3(
                PinDesc::new("in", "Str"),
                PinDesc::new("find", "Str"),
                PinDesc::new("replace", "Str"),
            ),
            pins1(PinDesc::new("out", "Str")),
        )
    }
}

/// The change-of-value block; its arithmetic is floating point and is done by
/// the engine.
pub struct ChangeOfValue;

/// The derivative block; its arithmetic is floating point and is done by
/// the engine.
pub struct Derivative;

/// The exponential moving average block; its arithmetic is floating point and is done by
/// the engine.
pub struct Ema;

/// The integrator block; its arithmetic is floating point and is done by
/// the engine.
pub struct Integrator;

/// The moving-average block; its arithmetic is floating point and is done by
/// the engine.
pub struct MovingAverage;

/// The number-parsing block; its arithmetic is floating point and is done by
/// the engine.
pub struct ParseNumber;

/// The sine-wave block; its arithmetic is floating point and is done by
/// the engine.
pub struct SineWave;

/// The has-value block; its arithmetic is floating point and is done by
/// the engine.
pub struct HasValue;

/// The dew-point block; its arithmetic is floating point and is done by
/// the engine.
pub struct Dewpoint;

/// The enthalpy block; its arithmetic is floating point and is done by
/// the engine.
pub struct Enthalpy;

/// The wet-bulb block; its arithmetic is floating point and is done by
/// the engine.
pub struct WetBulb;

/// The clock block; its arithmetic is floating point and is done by
/// the engine.
pub struct Now;

/// The sunrise and sunset block; its arithmetic is floating point and is done by
/// the engine.
pub struct Sun;

impl RegisterableBlock for ChangeOfValue {
    open spec fn static_desc() -> BlockDescView {
        core_block("ChangeOfValue"@, "ChangeOfValue"@, "misc"@, seq![pin("in"@, "Number"@), pin("delta"@, "Number"@)], seq![pin("out"@, "Number"@)])
    }

    fn block_desc() -> (desc: BlockDesc) {
        core_desc("ChangeOfValue", "ChangeOfValue", "misc", pins2(PinDesc::new("in", "Number"), PinDesc::new("delta", "Number")), pins1(PinDesc::new("out", "Number")))
    }
}

impl RegisterableBlock for Derivative {
    open spec fn static_desc() -> BlockDescView {
        core_block("Derivative"@, "Derivative"@, "misc"@, seq![pin("in"@, "Number"@), pin("interval"@, "Number"@)], seq![pin("out"@, "Number"@)])
    }

    fn block_desc() -> (desc: BlockDesc) {
        core_desc("Derivative", "Derivative", "misc", pins2(PinDesc::new("in", "Number"), PinDesc::new("interval", "Number")), pins1(PinDesc::new("out", "Number")))
    }
}

impl RegisterableBlock for Ema {
    open spec fn static_desc() -> BlockDescView {
        core_block("Ema"@, "Ema"@, "misc"@, seq![pin("in"@, "Number"@), pin("alpha"@, "Number"@), pin("interval"@, "Number"@)], seq![pin("out"@, "Number"@)])
    }

    fn block_desc() -> (desc: BlockDesc) {
        core_desc("Ema", "Ema", "misc", pins3(PinDesc::new("in", "Number"), PinDesc::new("alpha", "Number"), PinDesc::new("interval", "Number")), pins1(PinDesc::new("out", "Number")))
    }
}

impl RegisterableBlock for Integrator {
    open spec fn static_desc() -> BlockDescView {
        core_block("Integrator"@, "Integrator"@, "misc"@, seq![pin("in"@, "Number"@), pin("reset"@, "Bool"@), pin("interval"@, "Number"@)], seq![pin("out"@, "Number"@)])
    }

    fn block_desc() -> (desc: BlockDesc) {
        core_desc("Integrator", "Integrator", "misc", pins3(PinDesc::new("in", "Number"), PinDesc::new("reset", "Bool"), PinDesc::new("interval", "Number")), pins1(PinDesc::new("out", "Number")))
    }
}

impl RegisterableBlock for MovingAverage {
    open spec fn static_desc() -> BlockDescView {
        core_block("MovingAverage"@, "MovingAverage"@, "misc"@, seq![pin("in"@, "Number"@), pin("window"@, "Number"@), pin("interval"@, "Number"@)], seq![pin("out"@, "Number"@)])
    }

    fn block_desc() -> (desc: BlockDesc) {
        core_desc("MovingAverage", "MovingAverage", "misc", pins3(PinDesc::new("in", "Number"), PinDesc::new("window", "Number"), PinDesc::new("interval", "Number")), pins1(PinDesc::new("out", "Number")))
    }
}

impl RegisterableBlock for ParseNumber {
    open spec fn static_desc() -> BlockDescView {
        core_block("ParseNumber"@, "ParseNumber"@, "misc"@, seq![pin("in"@, "Str"@)], seq![pin("out"@, "Number"@)])
    }

    fn block_desc() -> (desc: BlockDesc) {
        core_desc("ParseNumber", "ParseNumber", "misc", pins1(PinDesc::new("in", "Str")), pins1(PinDesc::new("out", "Number")))
    }
}

impl RegisterableBlock for SineWave {
    open spec fn static_desc() -> BlockDescView {
        core_block("SineWave"@, "SineWave"@, "misc"@, seq![pin("freq"@, "Number"@), pin("amplitude"@, "Number"@)], seq![pin("out"@, "Number"@)])
    }

    fn block_desc() -> (desc: BlockDesc) {
        core_desc("SineWave", "SineWave", "misc", pins2(PinDesc::new("freq", "Number"), PinDesc::new("amplitude", "Number")), pins1(PinDesc::new("out", "Number")))
    }
}

impl RegisterableBlock for HasValue {
    open spec fn static_desc() -> BlockDescView {
        core_block("HasValue"@, "HasValue"@, "misc"@, seq![pin("in"@, "Null"@)], seq![pin("out"@, "Bool"@)])
    }

    fn block_desc() -> (desc: BlockDesc) {
        core_desc("HasValue", "HasValue", "misc", pins1(PinDesc::new("in", "Null")), pins1(PinDesc::new("out", "Bool")))
    }
}

impl RegisterableBlock for Dewpoint {
    open spec fn static_desc() -> BlockDescView {
        core_block("Dewpoint"@, "Dewpoint"@, "psych"@, seq![pin("t"@, "Number"@), pin("rh"@, "Number"@)], seq![pin("out"@, "Number"@)])
    }

    fn block_desc() -> (desc: BlockDesc) {
        core_desc("Dewpoint", "Dewpoint", "psych", pins2(PinDesc::new("t", "Number"), PinDesc::new("rh", "Number")), pins1(PinDesc::new("out", "Number")))
    }
}

impl RegisterableBlock for Enthalpy {
    open spec fn static_desc() -> BlockDescView {
        core_block("Enthalpy"@, "Enthalpy"@, "psych"@, seq![pin("t"@, "Number"@), pin("rh"@, "Number"@), pin("p"@, "Number"@)], seq![pin("out"@, "Number"@)])
    }

    fn block_desc() -> (desc: BlockDesc) {
        core_desc("Enthalpy", "Enthalpy", "psych", pins3(PinDesc::new("t", "Number"), PinDesc::new("rh", "Number"), PinDesc::new("p", "Number")), pins1(PinDesc::new("out", "Number")))
    }
}

impl RegisterableBlock for WetBulb {
    open spec fn static_desc() -> BlockDescView {
        core_block("WetBulb"@, "WetBulb"@, "psych"@, seq![pin("t"@, "Number"@), pin("rh"@, "Number"@)], seq![pin("out"@, "Number"@)])
    }

    fn block_desc() -> (desc: BlockDesc) {
        core_desc("WetBulb", "WetBulb", "psych", pins2(PinDesc::new("t", "Number"), PinDesc::new("rh", "Number")), pins1(PinDesc::new("out", "Number")))
    }
}

impl RegisterableBlock for Now {
    open spec fn static_desc() -> BlockDescView {
        core_block("Now"@, "Now"@, "time"@, seq![pin("resolution"@, "Number"@)], seq![pin("out"@, "Number"@)])
    }

    fn block_desc() -> (desc: BlockDesc) {
        core_desc("Now", "Now", "time", pins1(PinDesc::new("resolution", "Number")), pins1(PinDesc::new("out", "Number")))
    }
}

impl RegisterableBlock for Sun {
    open spec fn static_desc() -> BlockDescView {
        core_block("Sun"@, "Sun"@, "time"@, seq![pin("lat"@, "Number"@), pin("lon"@, "Number"@), pin("tzOffset"@, "Number"@)], seq![pin("sunrise"@, "Number"@), pin("sunset"@, "Number"@), pin("isDay"@, "Bool"@)])
    }

    fn block_desc() -> (desc: BlockDesc) {
        core_desc("Sun", "Sun", "time", pins3(PinDesc::new("lat", "Number"), PinDesc::new("lon", "Number"), PinDesc::new("tzOffset", "Number")), pins3(PinDesc::new("sunrise", "Number"), PinDesc::new("sunset", "Number"), PinDesc::new("isDay", "Bool")))
    }
}

} // verus!
