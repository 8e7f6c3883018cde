//! The print state machine: the Shutdown → Idle → Printing lifecycle,
//! the operation alphabet the operator surfaces feed it, and the
//! per-layer sequence of a running print.
//!
//! The machine is a pure dispatcher: each step consumes an operation or
//! a hardware outcome and yields the next state together with the
//! effects the embedding binary must perform (publish a snapshot, run a
//! motion request, load an archive, paint the panel).  Every motion
//! failure drives the machine to `Shutdown`.

use vstd::prelude::*;

use crate::api_objects::FileMetadata;
use crate::api_objects::PhysicalState;
use crate::api_objects::PrintMetadata;
use crate::api_objects::PrinterStatus;
use crate::configuration::PrinterConfig;
use crate::display::DisplayTest;
use crate::error::OdysseyError;

verus! {

/// The printer lifecycle value published to every subscriber.
#[derive(Clone, Debug)]
pub enum PrinterState {
    Printing { print_data: PrintMetadata, paused: bool, layer: usize, physical_state: PhysicalState },
    Idle { physical_state: PhysicalState },
    Shutdown,
}

/// The command alphabet of the state machine.
#[derive(Clone, Debug)]
pub enum Operation {
    StartPrint { file_data: FileMetadata },
    StopPrint,
    PausePrint,
    ResumePrint,
    ManualMove { z: u32 },
    ManualCure { cure: bool },
    ManualHome,
    ManualCommand { command: Vec<u8> },
    ManualDisplayTest { test: DisplayTest },
    ManualDisplayLayer { file_data: FileMetadata, layer: usize },
    QueryState,
    Shutdown,
}

/// A hardware action the embedding binary runs through the motion
/// protocol client.
#[derive(Clone, Debug)]
pub enum MotionCommand {
    Move { z_microns: u32, speed: u32 },
    Cure { on: bool },
    Home,
    Raw { command: Vec<u8> },
    StartPrint,
    EndPrint,
}

/// What a state-machine step asks the embedding binary to do, in order.
#[derive(Clone, Debug)]
pub enum Effect {
    /// Broadcast the state reached by this step.
    PublishStatus,
    /// Open the sliced archive and enter the printing state with its
    /// metadata.
    LoadPrintFile { file_data: FileMetadata },
    Motion { command: MotionCommand },
    ShowTest { test: DisplayTest },
    ShowLayer { file_data: FileMetadata, layer: usize },
    /// Issue the shutdown template, best effort.
    RunShutdown,
    /// Drop the print-scoped substitution variables.
    ClearVariables,
}

/// A published `Printing` snapshot always points at an existing layer.
pub open spec fn state_wf(s: PrinterState) -> bool {
    match s {
        PrinterState::Printing { print_data, layer, .. } => layer < print_data.layer_count,
        _ => true,
    }
}

/// The state an operation moves the machine to.  Operator commands only
/// act in the states that accept them: a print can be paused, resumed,
/// stopped; `Shutdown` wins from every state; everything else leaves the
/// state unchanged (manual operations touch hardware, not the state).
pub open spec fn spec_operation_state(s: PrinterState, op: Operation) -> PrinterState {
    match s {
        PrinterState::Shutdown => PrinterState::Shutdown,
        PrinterState::Idle { physical_state } => match op {
            Operation::Shutdown => PrinterState::Shutdown,
            _ => s,
        },
        PrinterState::Printing { print_data, paused, layer, physical_state } => match op {
            Operation::PausePrint => PrinterState::Printing {
                print_data,
                paused: true,
                layer,
                physical_state,
            },
            Operation::ResumePrint => PrinterState::Printing {
                print_data,
                paused: false,
                layer,
                physical_state,
            },
            Operation::StopPrint => PrinterState::Idle { physical_state },
            Operation::Shutdown => PrinterState::Shutdown,
            _ => s,
        },
    }
}

/// The effects an operation asks for in each state: `Shutdown` drains
/// the queue answering only state queries; `Idle` runs manual hardware
/// work and starts prints; `Printing` accepts the print controls.
pub open spec fn spec_operation_effects(s: PrinterState, op: Operation, up_speed: u32) -> Seq<
    Effect,
> {
    match s {
        PrinterState::Shutdown => match op {
            Operation::QueryState => seq![Effect::PublishStatus],
            _ => Seq::empty(),
        },
        PrinterState::Idle { .. } => match op {
            Operation::QueryState => seq![Effect::PublishStatus],
            Operation::StartPrint { file_data } => seq![Effect::LoadPrintFile { file_data }],
            Operation::ManualMove { z } => seq![
                Effect::Motion { command: MotionCommand::Move { z_microns: z, speed: up_speed } },
            ],
            Operation::ManualCure { cure } => seq![
                Effect::Motion { command: MotionCommand::Cure { on: cure } },
            ],
            Operation::ManualHome => seq![Effect::Motion { command: MotionCommand::Home }],
            Operation::ManualCommand { command } => seq![
                Effect::Motion { command: MotionCommand::Raw { command } },
            ],
            Operation::ManualDisplayTest { test } => seq![Effect::ShowTest { test }],
            Operation::ManualDisplayLayer { file_data, layer } => seq![
                Effect::ShowLayer { file_data, layer },
            ],
            Operation::Shutdown => seq![Effect::RunShutdown, Effect::PublishStatus],
            _ => Seq::empty(),
        },
        PrinterState::Printing { .. } => match op {
            Operation::QueryState => seq![Effect::PublishStatus],
            Operation::PausePrint => seq![Effect::PublishStatus],
            Operation::ResumePrint => seq![Effect::PublishStatus],
            Operation::StopPrint => seq![Effect::PublishStatus],
            Operation::Shutdown => seq![Effect::RunShutdown, Effect::PublishStatus],
            _ => Seq::empty(),
        },
    }
}

/// The state machine: the configuration's motion defaults and the
/// current lifecycle state it exclusively owns.
pub struct Printer {
    pub config: PrinterConfig,
    pub state: PrinterState,
}

impl Printer {
    pub open spec fn wf(&self) -> bool {
        state_wf(self.state)
    }

    /// A printer starts shut down; the boot probe brings it to `Idle`.
    pub fn new(config: PrinterConfig) -> (r: Printer)
        ensures
            r.state is Shutdown,
            r.config == config,
            r.wf(),
    {
        Printer { config, state: PrinterState::Shutdown }
    }

    /// The status tag of the current state.
    pub fn status(&self) -> (r: PrinterStatus)
        ensures
            r == (match self.state {
                PrinterState::Printing { .. } => PrinterStatus::Printing,
                PrinterState::Idle { .. } => PrinterStatus::Idle,
                PrinterState::Shutdown => PrinterStatus::Shutdown,
            }),
    {
        match self.state {
            PrinterState::Printing { .. } => PrinterStatus::Printing,
            PrinterState::Idle { .. } => PrinterStatus::Idle,
            PrinterState::Shutdown => PrinterStatus::Shutdown,
        }
    }

    /// The pose of the current state; a shut-down printer reports the
    /// largest Z so that nothing mistakes it for a parked platform.
    pub fn get_physical_state(&self) -> (r: PhysicalState)
        ensures
            r == (match self.state {
                PrinterState::Idle { physical_state } => physical_state,
                PrinterState::Printing { physical_state, .. } => physical_state,
                PrinterState::Shutdown => PhysicalState { z_microns: u32::MAX, curing: false },
            }),
    {
        match &self.state {
            PrinterState::Idle { physical_state } => *physical_state,
            PrinterState::Printing { physical_state, .. } => *physical_state,
            PrinterState::Shutdown => PhysicalState { z_microns: u32::MAX, curing: false },
        }
    }

    /// The current layer index; zero outside a print.
    pub fn get_layer(&self) -> (r: usize)
        ensures
            r == (match self.state {
                PrinterState::Printing { layer, .. } => layer,
                _ => 0,
            }),
    {
        match &self.state {
            PrinterState::Printing { layer, .. } => *layer,
            _ => 0,
        }
    }

    /// Whether a running print is paused.
    pub fn is_paused(&self) -> (r: bool)
        ensures
            r == (match self.state {
                PrinterState::Printing { paused, .. } => paused,
                _ => false,
            }),
    {
        match &self.state {
            PrinterState::Printing { paused, .. } => *paused,
            _ => false,
        }
    }

    /// Consumes one queued operation: the state moves as the transition
    /// table says and the returned effects are performed in order.
    pub fn handle_operation(&mut self, op: Operation) -> (r: Vec<Effect>)
        requires
            old(self).wf(),
        ensures
            final(self).wf(),
            final(self).config == old(self).config,
            final(self).state == spec_operation_state(old(self).state, op),
            r@ == spec_operation_effects(
                old(self).state,
                op,
                old(self).config.default_up_speed,
            ),
    {
        let ghost s0 = self.state;
        let ghost up = self.config.default_up_speed;
        let mut r: Vec<Effect> = Vec::new();
        match &self.state {
            PrinterState::Shutdown => {
                match op {
                    Operation::QueryState => {
                        r.push(Effect::PublishStatus);
                        proof {
                            assert(r@ =~= spec_operation_effects(s0, op, up));
                        }
                    },
                    _ => {
                        proof {
                            assert(r@ =~= spec_operation_effects(s0, op, up));
                        }
                    },
                }
            },
            PrinterState::Idle { physical_state } => {
                match op {
                    Operation::QueryState => {
                        r.push(Effect::PublishStatus);
                        proof {
                            assert(r@ =~= spec_operation_effects(s0, op, up));
                        }
                    },
                    Operation::StartPrint { file_data } => {
                        r.push(Effect::LoadPrintFile { file_data });
                        proof {
                            assert(r@ =~= spec_operation_effects(s0, op, up));
                        }
                    },
                    Operation::ManualMove { z } => {
                        let speed = self.config.default_up_speed;
                        r.push(
                            Effect::Motion {
                                command: MotionCommand::Move { z_microns: z, speed },
                            },
                        );
                        proof {
                            assert(r@ =~= spec_operation_effects(s0, op, up));
                        }
                    },
                    Operation::ManualCure { cure } => {
                        r.push(Effect::Motion { command: MotionCommand::Cure { on: cure } });
                        proof {
                            assert(r@ =~= spec_operation_effects(s0, op, up));
                        }
                    },
                    Operation::ManualHome => {
                        r.push(Effect::Motion { command: MotionCommand::Home });
                        proof {
                            assert(r@ =~= spec_operation_effects(s0, op, up));
                        }
                    },
                    Operation::ManualCommand { command } => {
                        r.push(Effect::Motion { command: MotionCommand::Raw { command } });
                        proof {
                            assert(r@ =~= spec_operation_effects(s0, op, up));
                        }
                    },
                    Operation::ManualDisplayTest { test } => {
                        r.push(Effect::ShowTest { test });
                        proof {
                            assert(r@ =~= spec_operation_effects(s0, op, up));
                        }
                    },
                    Operation::ManualDisplayLayer { file_data, layer } => {
                        r.push(Effect::ShowLayer { file_data, layer });
                        proof {
                            assert(r@ =~= spec_operation_effects(s0, op, up));
                        }
                    },
                    Operation::Shutdown => {
                        self.state = PrinterState::Shutdown;
                        r.push(Effect::RunShutdown);
                        r.push(Effect::PublishStatus);
                        proof {
                            assert(r@ =~= spec_operation_effects(s0, op, up));
                        }
                    },
                    _ => {
                        proof {
                            assert(r@ =~= spec_operation_effects(s0, op, up));
                        }
                    },
                }
            },
            PrinterState::Printing { print_data, paused, layer, physical_state } => {
                match op {
                    Operation::QueryState => {
                        r.push(Effect::PublishStatus);
                        proof {
                            assert(r@ =~= spec_operation_effects(s0, op, up));
                        }
                    },
                    Operation::PausePrint => {
                        self.update_paused_inner(true);
                        r.push(Effect::PublishStatus);
                        proof {
                            assert(r@ =~= spec_operation_effects(s0, op, up));
                        }
                    },
                    Operation::ResumePrint => {
                        self.update_paused_inner(false);
                        r.push(Effect::PublishStatus);
                        proof {
                            assert(r@ =~= spec_operation_effects(s0, op, up));
                        }
                    },
                    Operation::StopPrint => {
                        let physical = *physical_state;
                        self.state = PrinterState::Idle { physical_state: physical };
                        r.push(Effect::PublishStatus);
                        proof {
                            assert(r@ =~= spec_operation_effects(s0, op, up));
                        }
                    },
                    Operation::Shutdown => {
                        self.state = PrinterState::Shutdown;
                        r.push(Effect::RunShutdown);
                        r.push(Effect::PublishStatus);
                        proof {
                            assert(r@ =~= spec_operation_effects(s0, op, up));
                        }
                    },
                    _ => {
                        proof {
                            assert(r@ =~= spec_operation_effects(s0, op, up));
                        }
                    },
                }
            },
        }
        r
    }

    /// Sets the pause flag of a running print.
    fn update_paused_inner(&mut self, new_pause: bool)
        ensures
            final(self).config == old(self).config,
            final(self).state == (match old(self).state {
                PrinterState::Printing { print_data, paused, layer, physical_state } =>
                    PrinterState::Printing {
                    print_data,
                    paused: new_pause,
                    layer,
                    physical_state,
                },
                _ => old(self).state,
            }),
    {
        match &mut self.state {
            PrinterState::Printing { paused, .. } => {
                *paused = new_pause;
            },
            _ => {},
        }
    }
}

/// Motion figures of one print: the archive's overrides where present,
/// the configured defaults where not.
#[derive(Clone, Copy, Debug, PartialEq, Eq, Structural)]
pub struct MotionParameters {
    pub lift_microns: u32,
    pub up_speed: u32,
    pub down_speed: u32,
    pub wait_before_exposure_ms: u64,
    pub wait_after_exposure_ms: u64,
}

impl MotionParameters {
    /// Overrides take precedence over configured defaults.
    pub fn resolve(
        config: &PrinterConfig,
        lift: Option<u32>,
        up_speed: Option<u32>,
        down_speed: Option<u32>,
        wait_before: Option<u64>,
        wait_after: Option<u64>,
    ) -> (r: MotionParameters)
        ensures
            r.lift_microns == if lift is Some {
                lift->0
            } else {
                config.default_lift_microns
            },
            r.up_speed == if up_speed is Some {
                up_speed->0
            } else {
                config.default_up_speed
            },
            r.down_speed == if down_speed is Some {
                down_speed->0
            } else {
                config.default_down_speed
            },
            r.wait_before_exposure_ms == if wait_before is Some {
                wait_before->0
            } else {
                config.default_wait_before_exposure_ms
            },
            r.wait_after_exposure_ms == if wait_after is Some {
                wait_after->0
            } else {
                config.default_wait_after_exposure_ms
            },
    {
        MotionParameters {
            lift_microns: match lift {
                Option::Some(v) => v,
                Option::None => config.default_lift_microns,
            },
            up_speed: match up_speed {
                Option::Some(v) => v,
                Option::None => config.default_up_speed,
            },
            down_speed: match down_speed {
                Option::Some(v) => v,
                Option::None => config.default_down_speed,
            },
            wait_before_exposure_ms: match wait_before {
                Option::Some(v) => v,
                Option::None => config.default_wait_before_exposure_ms,
            },
            wait_after_exposure_ms: match wait_after {
                Option::Some(v) => v,
                Option::None => config.default_wait_after_exposure_ms,
            },
        }
    }
}

/// One step of the per-layer sequence a running print performs.
#[derive(Clone, Debug)]
pub enum LayerStep {
    /// Bind the `layer` substitution variable to the current index.
    SetLayerVariable { layer: usize },
    /// Issue the layer-start template.
    SendLayerStart,
    /// Move the platform, awaiting the move-sync reply.
    MoveTo { z_microns: u32, speed: u32 },
    /// Sleep for the given time.
    Wait { ms: u64 },
    /// Write the current frame, re-encoded, to the frame-buffer sink.
    ShowFrame,
    /// Issue the cure-start template.
    StartCure,
    /// Issue the cure-end template.
    StopCure,
}

/// The per-layer sequence: announce the layer, lift the platform clear
/// and settle it at the layer height, wait, expose the mask for the
/// layer's cure time, and wait again.
pub open spec fn spec_layer_plan(
    layer: usize,
    layer_height_microns: u32,
    params: MotionParameters,
    exposure_time_ms: u64,
) -> Seq<LayerStep> {
    let layer_z = (layer + 1) * layer_height_microns;
    seq![
        LayerStep::SetLayerVariable { layer },
        LayerStep::SendLayerStart,
        LayerStep::MoveTo {
            z_microns: (layer_z + params.lift_microns) as u32,
            speed: params.up_speed,
        },
        LayerStep::MoveTo { z_microns: layer_z as u32, speed: params.down_speed },
        LayerStep::Wait { ms: params.wait_before_exposure_ms },
        LayerStep::ShowFrame,
        LayerStep::StartCure,
        LayerStep::Wait { ms: exposure_time_ms },
        LayerStep::StopCure,
        LayerStep::Wait { ms: params.wait_after_exposure_ms },
    ]
}

/// Law (exposure conservation): in the plan of any layer the only
/// cure-on and cure-off commands enclose a wait of exactly the layer's
/// exposure time, so the interval between the issued commands is at
/// least the configured exposure.
pub proof fn lemma_exposure_conservation(
    layer: usize,
    layer_height_microns: u32,
    params: MotionParameters,
    exposure_time_ms: u64,
)
    ensures
        ({
            let plan = spec_layer_plan(layer, layer_height_microns, params, exposure_time_ms);
            &&& plan.len() == 10
            &&& plan[6] is StartCure
            &&& plan[7] == (LayerStep::Wait { ms: exposure_time_ms })
            &&& plan[8] is StopCure
            &&& forall|m: int| 0 <= m < plan.len() ==> ((#[trigger] plan[m]) is StartCure <==> m == 6)
            &&& forall|m: int| 0 <= m < plan.len() ==> ((#[trigger] plan[m]) is StopCure <==> m == 8)
        }),
{
}

/// The state reached when a layer finishes: the next layer when the
/// archive has one, else the end of the print.
pub open spec fn spec_finish_state(s: PrinterState, has_next: bool) -> PrinterState {
    match s {
        PrinterState::Printing { print_data, paused, layer, physical_state } => {
            if has_next {
                PrinterState::Printing {
                    print_data,
                    paused,
                    layer: (layer + 1) as usize,
                    physical_state,
                }
            } else {
                PrinterState::Idle { physical_state }
            }
        },
        _ => s,
    }
}

/// The layer index of a printing state, or -1 outside one.
pub open spec fn spec_layer_of(s: PrinterState) -> int {
    match s {
        PrinterState::Printing { layer, .. } => layer as int,
        _ => -1,
    }
}

/// The layer count of a printing state, or 0 outside one.
pub open spec fn spec_layer_count_of(s: PrinterState) -> int {
    match s {
        PrinterState::Printing { print_data, .. } => print_data.layer_count as int,
        _ => 0,
    }
}

/// Law (monotone layer progress, operations): no operator command moves
/// a print backwards; whenever the machine stays in `Printing` across
/// an operation, the layer index is unchanged.
pub proof fn lemma_operation_layer_monotone(s: PrinterState, op: Operation)
    ensures
        (s is Printing && spec_operation_state(s, op) is Printing) ==> spec_layer_of(
            spec_operation_state(s, op),
        ) == spec_layer_of(s),
{
}

/// Law (monotone layer progress, layers): finishing a layer either
/// advances the index by exactly one, staying inside the archive, or
/// ends the print from its last layer -- so published snapshots carry
/// non-decreasing indices and the final `Idle` is preceded by one with
/// `layer_index = layer_count - 1`.
pub proof fn lemma_finish_layer_progress(s: PrinterState, has_next: bool)
    requires
        s is Printing,
        state_wf(s),
        has_next == (spec_layer_of(s) + 1 < spec_layer_count_of(s)),
    ensures
        state_wf(spec_finish_state(s, has_next)),
        spec_finish_state(s, has_next) is Printing ==> spec_layer_of(
            spec_finish_state(s, has_next),
        ) == spec_layer_of(s) + 1,
        spec_finish_state(s, has_next) is Idle ==> spec_layer_of(s) == spec_layer_count_of(s) - 1,
{
}

/// Law (pause idempotence): pausing twice is pausing once, and resuming
/// after any number of pauses is just resuming -- which, in a print,
/// leaves the machine unpaused.
pub proof fn lemma_pause_idempotent(s: PrinterState)
    ensures
        spec_operation_state(
            spec_operation_state(s, Operation::PausePrint),
            Operation::PausePrint,
        ) == spec_operation_state(s, Operation::PausePrint),
        spec_operation_state(
            spec_operation_state(s, Operation::PausePrint),
            Operation::ResumePrint,
        ) == spec_operation_state(s, Operation::ResumePrint),
        s is Printing ==> match spec_operation_state(s, Operation::ResumePrint) {
            PrinterState::Printing { paused, .. } => !paused,
            _ => false,
        },
{
}

/// Law (shutdown dominance): the shutdown operation reaches `Shutdown`
/// from every state in the single step that consumes it.
pub proof fn lemma_shutdown_dominance(s: PrinterState)
    ensures
        spec_operation_state(s, Operation::Shutdown) is Shutdown,
{
}

impl Printer {
    /// Builds the per-layer step sequence for the current layer of a
    /// print.  The bounds keep the lift target inside the micron range
    /// of the pose.
    pub fn plan_layer(
        layer: usize,
        layer_height_microns: u32,
        params: MotionParameters,
        exposure_time_ms: u64,
    ) -> (r: Vec<LayerStep>)
        requires
            layer < u32::MAX,
            (layer + 1) * layer_height_microns + params.lift_microns <= u32::MAX,
        ensures
            r@ == spec_layer_plan(layer, layer_height_microns, params, exposure_time_ms),
    {
        proof {
            assert((layer + 1) * layer_height_microns >= 0) by (nonlinear_arith)
                requires
                    layer >= 0,
                    layer_height_microns >= 0,
            ;
        }
        let layer_z64: u64 = ((layer as u64) + 1) * (layer_height_microns as u64);
        let layer_z: u32 = layer_z64 as u32;
        let lift_z: u32 = layer_z + params.lift_microns;
        let mut r: Vec<LayerStep> = Vec::new();
        r.push(LayerStep::SetLayerVariable { layer });
        r.push(LayerStep::SendLayerStart);
        r.push(LayerStep::MoveTo { z_microns: lift_z, speed: params.up_speed });
        r.push(LayerStep::MoveTo { z_microns: layer_z, speed: params.down_speed });
        r.push(LayerStep::Wait { ms: params.wait_before_exposure_ms });
        r.push(LayerStep::ShowFrame);
        r.push(LayerStep::StartCure);
        r.push(LayerStep::Wait { ms: exposure_time_ms });
        r.push(LayerStep::StopCure);
        r.push(LayerStep::Wait { ms: params.wait_after_exposure_ms });
        proof {
            assert(r@ =~= spec_layer_plan(layer, layer_height_microns, params, exposure_time_ms));
        }
        r
    }

    /// Enters the printing state from `Idle` for a non-empty archive;
    /// a shut-down machine, a running print, and an archive without
    /// layers leave the state untouched.
    pub fn enter_printing_state(&mut self, print_data: PrintMetadata) -> (r: Vec<Effect>)
        requires
            old(self).wf(),
        ensures
            final(self).wf(),
            final(self).config == old(self).config,
            (match old(self).state {
                PrinterState::Idle { physical_state } => {
                    if print_data.layer_count > 0 {
                        &&& final(self).state == (PrinterState::Printing {
                            print_data,
                            paused: false,
                            layer: 0,
                            physical_state,
                        })
                        &&& r@ == seq![Effect::PublishStatus]
                    } else {
                        &&& final(self).state == old(self).state
                        &&& r@ == Seq::<Effect>::empty()
                    }
                },
                _ => final(self).state == old(self).state && r@ == Seq::<Effect>::empty(),
            }),
    {
        let mut r: Vec<Effect> = Vec::new();
        match &self.state {
            PrinterState::Idle { physical_state } => {
                if print_data.layer_count > 0 {
                    let physical = *physical_state;
                    self.state = PrinterState::Printing {
                        print_data,
                        paused: false,
                        layer: 0,
                        physical_state: physical,
                    };
                    r.push(Effect::PublishStatus);
                    proof {
                        assert(r@ =~= seq![Effect::PublishStatus]);
                    }
                } else {
                    proof {
                        assert(r@ =~= Seq::<Effect>::empty());
                    }
                }
            },
            _ => {
                proof {
                    assert(r@ =~= Seq::<Effect>::empty());
                }
            },
        }
        r
    }

    /// Starting a print is entering the printing state with the
    /// archive's metadata; the embedding binary then issues the
    /// print-start template and binds `total_layers`.
    pub fn start_print(&mut self, print_data: PrintMetadata) -> (r: Vec<Effect>)
        requires
            old(self).wf(),
        ensures
            final(self).wf(),
            final(self).config == old(self).config,
            (match old(self).state {
                PrinterState::Idle { physical_state } => {
                    if print_data.layer_count > 0 {
                        &&& final(self).state == (PrinterState::Printing {
                            print_data,
                            paused: false,
                            layer: 0,
                            physical_state,
                        })
                        &&& r@ == seq![Effect::PublishStatus]
                    } else {
                        &&& final(self).state == old(self).state
                        &&& r@ == Seq::<Effect>::empty()
                    }
                },
                _ => final(self).state == old(self).state && r@ == Seq::<Effect>::empty(),
            }),
    {
        self.enter_printing_state(print_data)
    }

    /// Takes the pose a successful motion operation reports; the
    /// snapshot follows the mutation.
    pub fn update_physical_state(&mut self, new_physical_state: PhysicalState) -> (r: Vec<Effect>)
        requires
            old(self).wf(),
        ensures
            final(self).wf(),
            final(self).config == old(self).config,
            final(self).state == (match old(self).state {
                PrinterState::Printing { print_data, paused, layer, .. } => PrinterState::Printing {
                    print_data,
                    paused,
                    layer,
                    physical_state: new_physical_state,
                },
                PrinterState::Idle { .. } => PrinterState::Idle {
                    physical_state: new_physical_state,
                },
                PrinterState::Shutdown => PrinterState::Shutdown,
            }),
            r@ == seq![Effect::PublishStatus],
    {
        match &mut self.state {
            PrinterState::Printing { physical_state, .. } => {
                *physical_state = new_physical_state;
            },
            PrinterState::Idle { physical_state } => {
                *physical_state = new_physical_state;
            },
            PrinterState::Shutdown => {},
        }
        let mut r: Vec<Effect> = Vec::new();
        r.push(Effect::PublishStatus);
        proof {
            assert(r@ =~= seq![Effect::PublishStatus]);
        }
        r
    }

    /// Consumes the outcome of a wrapped motion operation: a success
    /// updates the published pose, any hardware failure drives the
    /// machine to `Shutdown` (issuing the shutdown template best
    /// effort), as motion errors always do.
    pub fn apply_motion_result(&mut self, result: Result<PhysicalState, OdysseyError>) -> (r: Vec<
        Effect,
    >)
        requires
            old(self).wf(),
        ensures
            final(self).wf(),
            final(self).config == old(self).config,
            (match result {
                Ok(ps) => {
                    &&& final(self).state == (match old(self).state {
                        PrinterState::Printing { print_data, paused, layer, .. } =>
                            PrinterState::Printing {
                            print_data,
                            paused,
                            layer,
                            physical_state: ps,
                        },
                        PrinterState::Idle { .. } => PrinterState::Idle { physical_state: ps },
                        PrinterState::Shutdown => PrinterState::Shutdown,
                    })
                    &&& r@ == seq![Effect::PublishStatus]
                },
                Err(_) => {
                    &&& final(self).state is Shutdown
                    &&& r@ == seq![Effect::RunShutdown, Effect::PublishStatus]
                },
            }),
    {
        match result {
            Ok(physical_state) => self.update_physical_state(physical_state),
            Err(_) => {
                self.state = PrinterState::Shutdown;
                let mut r: Vec<Effect> = Vec::new();
                r.push(Effect::RunShutdown);
                r.push(Effect::PublishStatus);
                proof {
                    assert(r@ =~= seq![Effect::RunShutdown, Effect::PublishStatus]);
                }
                r
            },
        }
    }

    /// Consumes the outcome of the boot probe: a ready controller moves
    /// the machine to `Idle` at the reported pose, a failure keeps it
    /// shut down.
    pub fn boot(&mut self, result: Result<PhysicalState, OdysseyError>) -> (r: Vec<Effect>)
        requires
            old(self).wf(),
        ensures
            final(self).wf(),
            final(self).config == old(self).config,
            (match result {
                Ok(ps) => final(self).state == (PrinterState::Idle { physical_state: ps }) && r@
                    == seq![Effect::PublishStatus],
                Err(_) => final(self).state is Shutdown && r@ == seq![
                    Effect::RunShutdown,
                    Effect::PublishStatus,
                ],
            }),
    {
        match result {
            Ok(physical_state) => {
                self.state = PrinterState::Idle { physical_state };
                let mut r: Vec<Effect> = Vec::new();
                r.push(Effect::PublishStatus);
                proof {
                    assert(r@ =~= seq![Effect::PublishStatus]);
                }
                r
            },
            Err(_) => {
                self.state = PrinterState::Shutdown;
                let mut r: Vec<Effect> = Vec::new();
                r.push(Effect::RunShutdown);
                r.push(Effect::PublishStatus);
                proof {
                    assert(r@ =~= seq![Effect::RunShutdown, Effect::PublishStatus]);
                }
                r
            },
        }
    }

    /// Ends the current layer: with a next layer in the archive the
    /// index advances and a snapshot is published; without one the
    /// print ends through the print-end template into `Idle`.
    pub fn finish_layer(&mut self, has_next: bool) -> (r: Vec<Effect>)
        requires
            old(self).wf(),
            old(self).state is Printing,
            has_next == (spec_layer_of(old(self).state) + 1 < spec_layer_count_of(old(self).state)),
        ensures
            final(self).wf(),
            final(self).config == old(self).config,
            final(self).state == spec_finish_state(old(self).state, has_next),
            r@ == if has_next {
                seq![Effect::PublishStatus]
            } else {
                seq![
                    Effect::Motion { command: MotionCommand::EndPrint },
                    Effect::ClearVariables,
                    Effect::PublishStatus,
                ]
            },
    {
        let mut r: Vec<Effect> = Vec::new();
        if has_next {
            match &mut self.state {
                PrinterState::Printing { layer, .. } => {
                    *layer = *layer + 1;
                },
                _ => {},
            }
            r.push(Effect::PublishStatus);
            proof {
                assert(r@ =~= seq![Effect::PublishStatus]);
            }
        } else {
            match &self.state {
                PrinterState::Printing { physical_state, .. } => {
                    let physical = *physical_state;
                    self.state = PrinterState::Idle { physical_state: physical };
                },
                _ => {},
            }
            r.push(Effect::Motion { command: MotionCommand::EndPrint });
            r.push(Effect::ClearVariables);
            r.push(Effect::PublishStatus);
            proof {
                assert(r@ =~= seq![
                    Effect::Motion { command: MotionCommand::EndPrint },
                    Effect::ClearVariables,
                    Effect::PublishStatus,
                ]);
            }
        }
        r
    }
}

} // verus!
