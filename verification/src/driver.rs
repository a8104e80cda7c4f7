//! The decisions of the DS18B20 driver, apart from the bus that carries them
//! out.
//!
//! A read is a script of bus actions. The driver names the next action, the
//! firmware performs it and hands back what happened.

use vstd::prelude::*;

use crate::ds18b20::{
    parse_scratchpad, Resolution, ALARM_HIGH_DEFAULT, ALARM_LOW_DEFAULT, CONVERT_TEMPERATURE,
    FAMILY_CODE, READ_SCRATCHPAD, SCRATCHPAD_LEN, WRITE_SCRATCHPAD,
};
use crate::temperature::{Celsius, ThermometerError};

verus! {

/// Time granted to a conversion beyond what the datasheet asks for.
pub const CONVERSION_MARGIN_MS: u32 = 50;

/// The 1-Wire ROM command that addresses a single device.
pub const MATCH_ROM: u8 = 0x55;

/// ESP-IDF's code for a resource that was not found.
pub const ESP_ERR_NOT_FOUND: i32 = 0x105;

/// ESP-IDF's code for an operation that timed out.
pub const ESP_ERR_TIMEOUT: i32 = 0x107;

/// Bytes of an addressed command: the ROM command, the address, the command.
pub const COMMAND_LEN: usize = 10;

/// Bytes written to the scratchpad: both alarm registers and the configuration.
pub const REGISTERS_LEN: usize = 3;

/// Step of the script at which the device is configured and sampling starts.
pub const FIRST_SAMPLE_STEP: u8 = 3;

/// Step of the script at which the result is collected.
pub const FIRST_COLLECT_STEP: u8 = 6;

/// Step of the script that reads the scratchpad, the last one.
pub const READ_STEP: u8 = 8;

/// The error class of an ESP-IDF error code.
pub open spec fn class_of(code: i32) -> ThermometerError {
    if code == ESP_ERR_TIMEOUT {
        ThermometerError::Timeout
    } else if code == ESP_ERR_NOT_FOUND {
        ThermometerError::NotPresent
    } else {
        ThermometerError::Bus
    }
}

/// Reduces an ESP-IDF error code to the class that callers decide on.
pub fn classify(code: i32) -> (error: ThermometerError)
    ensures
        error == class_of(code),
{
    match code {
        ESP_ERR_TIMEOUT => ThermometerError::Timeout,
        ESP_ERR_NOT_FOUND => ThermometerError::NotPresent,
        _ => ThermometerError::Bus,
    }
}

/// The low byte of a ROM address, which names the family of the device.
pub open spec fn family_of(address: u64) -> u8 {
    (address % 256) as u8
}

pub fn family_code(address: u64) -> (family: u8)
    ensures
        family == family_of(address),
{
    (address % 256) as u8
}

/// The device that a search of the bus settles on.
pub open spec fn discovered(found: Result<Option<u64>, i32>) -> Result<u64, ThermometerError> {
    match found {
        Err(code) => Err(class_of(code)),
        Ok(Some(address)) if family_of(address) == FAMILY_CODE => Ok(address),
        Ok(_) => Err(ThermometerError::NotPresent),
    }
}

/// Judges the first device that a search turned up, if any: only a DS18B20
/// counts as present.
pub fn discover(found: Result<Option<u64>, i32>) -> (device: Result<u64, ThermometerError>)
    ensures
        device == discovered(found),
{
    match found {
        Err(code) => Err(classify(code)),
        Ok(None) => Err(ThermometerError::NotPresent),
        Ok(Some(address)) => {
            if family_code(address) != FAMILY_CODE {
                Err(ThermometerError::NotPresent)
            } else {
                Ok(address)
            }
        },
    }
}

/// The bytes of a ROM address, lowest first.
pub open spec fn address_bytes(address: u64) -> Seq<u8> {
    seq![
        (address % 256) as u8,
        (address / 0x100 % 256) as u8,
        (address / 0x1_0000 % 256) as u8,
        (address / 0x100_0000 % 256) as u8,
        (address / 0x1_0000_0000 % 256) as u8,
        (address / 0x100_0000_0000 % 256) as u8,
        (address / 0x1_0000_0000_0000 % 256) as u8,
        (address / 0x100_0000_0000_0000 % 256) as u8,
    ]
}

/// The bytes that give `instruction` to the device at `address` alone.
pub open spec fn addressed(address: u64, instruction: u8) -> Seq<u8> {
    seq![MATCH_ROM] + address_bytes(address) + seq![instruction]
}

/// Frames `instruction` for the device at `address`.
pub fn command(address: u64, instruction: u8) -> (frame: [u8; COMMAND_LEN])
    ensures
        frame@ == addressed(address, instruction),
{
    let frame: [u8; COMMAND_LEN] = [
        MATCH_ROM,
        (address % 256) as u8,
        (address / 0x100 % 256) as u8,
        (address / 0x1_0000 % 256) as u8,
        (address / 0x100_0000 % 256) as u8,
        (address / 0x1_0000_0000 % 256) as u8,
        (address / 0x100_0000_0000 % 256) as u8,
        (address / 0x1_0000_0000_0000 % 256) as u8,
        (address / 0x100_0000_0000_0000 % 256) as u8,
        instruction,
    ];
    assert(frame@ =~= addressed(address, instruction));
    frame
}

/// The register contents that select `resolution`.
pub fn registers(resolution: Resolution) -> (registers: [u8; REGISTERS_LEN])
    ensures
        registers@ == seq![
            ALARM_HIGH_DEFAULT,
            ALARM_LOW_DEFAULT,
            (0x1F + 0x20 * (resolution.bits() - 9)) as u8,
        ],
{
    let registers: [u8; REGISTERS_LEN] = [
        ALARM_HIGH_DEFAULT,
        ALARM_LOW_DEFAULT,
        resolution.config_byte(),
    ];
    assert(registers@ =~= seq![
        ALARM_HIGH_DEFAULT,
        ALARM_LOW_DEFAULT,
        (0x1F + 0x20 * (resolution.bits() - 9)) as u8,
    ]);
    registers
}

/// What the driver wants done next.
#[derive(Debug, Clone, Copy, PartialEq, Eq)]
pub enum Action {
    /// Search the bus for its first device.
    Search,
    /// Send a reset pulse.
    Reset,
    /// Write an addressed command.
    WriteCommand([u8; COMMAND_LEN]),
    /// Write the alarm and configuration registers.
    WriteRegisters([u8; REGISTERS_LEN]),
    /// Wait for so many milliseconds.
    Delay(u32),
    /// Read the scratchpad.
    ReadScratchpad,
    /// Nothing: the read has ended.
    Finish(Result<Celsius, ThermometerError>),
}

/// What came of an action. Failures carry the ESP-IDF error code.
#[derive(Debug, Clone, Copy, PartialEq, Eq)]
pub enum Event {
    /// The search found this device, or none.
    Searched(Result<Option<u64>, i32>),
    /// A reset, a write or a delay is over.
    Done(Result<(), i32>),
    /// The scratchpad was read.
    Received(Result<[u8; SCRATCHPAD_LEN], i32>),
}

/// An action with its payload taken by value.
pub enum ActionView {
    Search,
    Reset,
    Write(Seq<u8>),
    Delay(int),
    ReadScratchpad,
    Finish(Result<Celsius, ThermometerError>),
}

impl View for Action {
    type V = ActionView;

    open spec fn view(&self) -> ActionView {
        match self {
            Action::Search => ActionView::Search,
            Action::Reset => ActionView::Reset,
            Action::WriteCommand(bytes) => ActionView::Write(bytes@),
            Action::WriteRegisters(bytes) => ActionView::Write(bytes@),
            Action::Delay(ms) => ActionView::Delay(*ms as int),
            Action::ReadScratchpad => ActionView::ReadScratchpad,
            Action::Finish(result) => ActionView::Finish(*result),
        }
    }
}

/// The bus actions of a read, once the device is known: the first three
/// configure it, the others take a sample.
pub open spec fn script(resolution: Resolution, address: u64) -> Seq<ActionView> {
    seq![
        ActionView::Reset,
        ActionView::Write(addressed(address, WRITE_SCRATCHPAD)),
        ActionView::Write(
            seq![
                ALARM_HIGH_DEFAULT,
                ALARM_LOW_DEFAULT,
                (0x1F + 0x20 * (resolution.bits() - 9)) as u8,
            ],
        ),
        ActionView::Reset,
        ActionView::Write(addressed(address, CONVERT_TEMPERATURE)),
        ActionView::Delay(resolution.conversion_time() + CONVERSION_MARGIN_MS),
        ActionView::Reset,
        ActionView::Write(addressed(address, READ_SCRATCHPAD)),
        ActionView::ReadScratchpad,
    ]
}

/// Where in a read the driver stands.
#[derive(Debug, Clone, Copy, PartialEq, Eq)]
pub enum Phase {
    /// No read is under way.
    Idle,
    /// The bus is being searched.
    Searching,
    /// This step of the script for this device is being performed.
    Running { address: u64, step: u8 },
}

/// The state of the driver.
pub struct DriverState {
    pub resolution: Resolution,
    /// The device that was found and configured, if it is still trusted.
    pub address: Option<u64>,
    pub phase: Phase,
}

impl DriverState {
    /// A device is remembered from the moment its configuration was written,
    /// and only a DS18B20 ever is.
    pub open spec fn valid(self) -> bool {
        &&& self.address matches Some(address) ==> family_of(address) == FAMILY_CODE
        &&& match self.phase {
            Phase::Idle => true,
            Phase::Searching => self.address is None,
            Phase::Running { address, step } => {
                &&& step <= READ_STEP
                &&& family_of(address) == FAMILY_CODE
                &&& step < FIRST_SAMPLE_STEP ==> self.address is None
                &&& step >= FIRST_SAMPLE_STEP ==> self.address == Some(address)
            },
        }
    }

    /// Whether `event` is an answer to the action under way.
    pub open spec fn awaits(self, event: Event) -> bool {
        match self.phase {
            Phase::Idle => false,
            Phase::Searching => event is Searched,
            Phase::Running { step, .. } => if step == READ_STEP {
                event is Received
            } else {
                event is Done
            },
        }
    }

    /// What the action under way is for, in the words of the console.
    pub open spec fn operation(self) -> Option<Seq<char>> {
        match self.phase {
            Phase::Idle => None,
            Phase::Searching => Some("search"@),
            Phase::Running { step, .. } => Some(
                if step < FIRST_SAMPLE_STEP {
                    "write scratchpad"@
                } else if step < FIRST_COLLECT_STEP {
                    "convert"@
                } else {
                    "read scratchpad"@
                },
            ),
        }
    }

    /// How the driver enters a read: at sampling when it remembers a device, at
    /// the search when it does not.
    pub open spec fn begun(self) -> (DriverState, ActionView) {
        match self.address {
            Some(address) => (
                DriverState {
                    phase: Phase::Running { address, step: FIRST_SAMPLE_STEP },
                    ..self
                },
                script(self.resolution, address)[FIRST_SAMPLE_STEP as int],
            ),
            None => (DriverState { phase: Phase::Searching, ..self }, ActionView::Search),
        }
    }

    /// The read ends with this error. Any error but a checksum failure casts
    /// doubt on the device, which is then forgotten.
    pub open spec fn failed(self, error: ThermometerError) -> (DriverState, ActionView) {
        (
            DriverState {
                address: if error == ThermometerError::Crc {
                    self.address
                } else {
                    None
                },
                phase: Phase::Idle,
                ..self
            },
            ActionView::Finish(Err(error)),
        )
    }

    /// The script moves on to `step`.
    pub open spec fn at_step(self, address: u64, step: u8) -> (DriverState, ActionView) {
        (
            DriverState {
                address: if step >= FIRST_SAMPLE_STEP {
                    Some(address)
                } else {
                    self.address
                },
                phase: Phase::Running { address, step },
                ..self
            },
            script(self.resolution, address)[step as int],
        )
    }

    /// Whether `event` takes the driver from this state to `next`, with
    /// `action` as what it wants done then.
    pub open spec fn responds(self, event: Event, next: DriverState, action: ActionView) -> bool {
        match (self.phase, event) {
            (Phase::Searching, Event::Searched(found)) => match discovered(found) {
                Ok(address) => (next, action) == self.at_step(address, 0),
                Err(error) => (next, action) == self.failed(error),
            },
            (Phase::Running { address, step }, Event::Done(Ok(()))) => (next, action)
                == self.at_step(address, (step + 1) as u8),
            (_, Event::Done(Err(code))) => (next, action) == self.failed(class_of(code)),
            (_, Event::Received(Err(code))) => (next, action) == self.failed(class_of(code)),
            (_, Event::Received(Ok(scratchpad))) => {
                &&& next == DriverState { phase: Phase::Idle, ..self }
                &&& action matches ActionView::Finish(result) && crate::ds18b20::decodes_to(
                    scratchpad@,
                    result,
                )
            },
            _ => false,
        }
    }
}

/// The driver of one DS18B20.
pub struct Ds18b20 {
    resolution: Resolution,
    address: Option<u64>,
    phase: Phase,
}

impl View for Ds18b20 {
    type V = DriverState;

    closed spec fn view(&self) -> DriverState {
        DriverState { resolution: self.resolution, address: self.address, phase: self.phase }
    }
}

impl Ds18b20 {
    #[verifier::type_invariant]
    spec fn in_valid_state(self) -> bool {
        self@.valid()
    }

    /// A driver that knows no device yet.
    pub fn new(resolution: Resolution) -> (driver: Self)
        ensures
            driver@.valid(),
            driver@ == (DriverState { resolution, address: None, phase: Phase::Idle }),
    {
        Ds18b20 { resolution, address: None, phase: Phase::Idle }
    }

    /// Starts a read and names its first action.
    pub fn begin(&mut self) -> (action: Action)
        ensures
            old(self)@.valid(),
            final(self)@.valid(),
            (final(self)@, action@) == old(self)@.begun(),
    {
        proof {
            use_type_invariant(&*self);
        }
        match self.address {
            Some(address) => self.enter(address, FIRST_SAMPLE_STEP),
            None => {
                self.phase = Phase::Searching;
                Action::Search
            },
        }
    }

    /// Takes in what came of the last action and names the next one.
    pub fn resume(&mut self, event: Event) -> (action: Action)
        requires
            old(self)@.awaits(event),
        ensures
            old(self)@.valid(),
            final(self)@.valid(),
            old(self)@.responds(event, final(self)@, action@),
    {
        proof {
            use_type_invariant(&*self);
        }
        match event {
            Event::Searched(found) => match discover(found) {
                Ok(address) => self.enter(address, 0),
                Err(error) => self.fail(error),
            },
            Event::Done(Ok(())) => match self.phase {
                Phase::Running { address, step } => self.enter(address, step + 1),
                // Only a step of the script is answered this way.
                _ => self.fail(ThermometerError::Bus),
            },
            Event::Done(Err(code)) => self.fail(classify(code)),
            Event::Received(Err(code)) => self.fail(classify(code)),
            Event::Received(Ok(scratchpad)) => {
                let result = parse_scratchpad(&scratchpad);
                self.phase = Phase::Idle;
                Action::Finish(result)
            },
        }
    }

    /// The operation that a failure of the action under way would be one of.
    pub fn operation(&self) -> (operation: Option<&'static str>)
        ensures
            match operation {
                Some(name) => self@.operation() == Some(name@),
                None => self@.operation() is None,
            },
    {
        match self.phase {
            Phase::Idle => None,
            Phase::Searching => Some("search"),
            Phase::Running { step, .. } => {
                if step < FIRST_SAMPLE_STEP {
                    Some("write scratchpad")
                } else if step < FIRST_COLLECT_STEP {
                    Some("convert")
                } else {
                    Some("read scratchpad")
                }
            },
        }
    }

    /// Moves to `step` of the script, remembering the device once configured.
    fn enter(&mut self, address: u64, step: u8) -> (action: Action)
        requires
            old(self)@.valid(),
            step <= READ_STEP,
            family_of(address) == FAMILY_CODE,
            step < FIRST_SAMPLE_STEP ==> old(self)@.address is None,
        ensures
            final(self)@.valid(),
            (final(self)@, action@) == old(self)@.at_step(address, step),
    {
        let remembered = if step >= FIRST_SAMPLE_STEP {
            Some(address)
        } else {
            self.address
        };
        *self = Ds18b20 {
            resolution: self.resolution,
            address: remembered,
            phase: Phase::Running { address, step },
        };
        match step {
            0 => Action::Reset,
            1 => Action::WriteCommand(command(address, WRITE_SCRATCHPAD)),
            2 => Action::WriteRegisters(registers(self.resolution)),
            3 => Action::Reset,
            4 => Action::WriteCommand(command(address, CONVERT_TEMPERATURE)),
            5 => Action::Delay(self.resolution.conversion_ms() + CONVERSION_MARGIN_MS),
            6 => Action::Reset,
            7 => Action::WriteCommand(command(address, READ_SCRATCHPAD)),
            _ => Action::ReadScratchpad,
        }
    }

    /// Ends the read with `error`.
    fn fail(&mut self, error: ThermometerError) -> (action: Action)
        requires
            old(self)@.valid(),
        ensures
            final(self)@.valid(),
            (final(self)@, action@) == old(self)@.failed(error),
    {
        let remembered = if error == ThermometerError::Crc {
            self.address
        } else {
            None
        };
        *self = Ds18b20 {
            resolution: self.resolution,
            address: remembered,
            phase: Phase::Idle,
        };
        Action::Finish(Err(error))
    }
}

/// The events that are still to come before a read ends, at most.
pub open spec fn events_left(state: DriverState) -> int {
    match state.phase {
        Phase::Idle => 0,
        Phase::Searching => READ_STEP + 2,
        Phase::Running { step, .. } => READ_STEP + 1 - step,
    }
}

/// Every event brings the read closer to its end, the driver stays valid, and
/// it is idle exactly when it has given a result.
pub proof fn law_every_event_advances_the_read(
    state: DriverState,
    event: Event,
    next: DriverState,
    action: ActionView,
)
    requires
        state.valid(),
        state.awaits(event),
        state.responds(event, next, action),
    ensures
        next.valid(),
        next.resolution == state.resolution,
        0 <= events_left(next) < events_left(state),
        next.phase is Idle <==> action is Finish,
{
}

/// A read that fails forgets the device, unless the failure is a checksum
/// failure: that one proves that the device answered. The device is then, and
/// after a success, still remembered.
pub proof fn law_failures_forget_the_device(
    state: DriverState,
    event: Event,
    next: DriverState,
    result: Result<Celsius, ThermometerError>,
)
    requires
        state.valid(),
        state.awaits(event),
        state.responds(event, next, ActionView::Finish(result)),
    ensures
        match result {
            Ok(_) => next.address is Some && next.address == state.address,
            Err(ThermometerError::Crc) => next.address is Some && next.address == state.address,
            Err(_) => next.address is None,
        },
{
}

/// A read gives what the bus said last: the decoded scratchpad if one was
/// received, otherwise the class of the failure, or the absence of a sensor
/// when the search turned up none. Nothing else ends it.
pub proof fn law_results_come_from_the_bus(
    state: DriverState,
    event: Event,
    next: DriverState,
    result: Result<Celsius, ThermometerError>,
)
    requires
        state.valid(),
        state.awaits(event),
        state.responds(event, next, ActionView::Finish(result)),
    ensures
        match event {
            Event::Received(Ok(scratchpad)) => crate::ds18b20::decodes_to(scratchpad@, result),
            Event::Received(Err(code)) => result == Err::<Celsius, _>(class_of(code)),
            Event::Done(Err(code)) => result == Err::<Celsius, _>(class_of(code)),
            Event::Done(Ok(())) => false,
            Event::Searched(found) => discovered(found) matches Err(error) && result == Err::<
                Celsius,
                _,
            >(error),
        },
{
}

/// One read from its first action on: `actions[i]` is what the driver wants
/// done in `states[i]`, and `events[i]` what came of it.
pub struct Run {
    pub states: Seq<DriverState>,
    pub actions: Seq<ActionView>,
    pub events: Seq<Event>,
}

impl Run {
    pub open spec fn starts_from(self, state: DriverState) -> bool {
        &&& self.states.len() == self.events.len() + 1
        &&& self.actions.len() == self.events.len() + 1
        &&& (self.states[0], self.actions[0]) == state.begun()
        &&& forall|i: int|
            0 <= i < self.events.len() ==> {
                &&& self.states[i].awaits(#[trigger] self.events[i])
                &&& self.states[i].responds(
                    self.events[i],
                    self.states[i + 1],
                    self.actions[i + 1],
                )
            }
    }
}

/// The run is the script from `step` on, entered at `offset`, cut short only by
/// its end.
pub open spec fn performs_script(run: Run, offset: int, address: u64, step: int) -> bool {
    forall|i: int|
        offset <= i < run.actions.len() ==> (if #[trigger] run.actions[i] is Finish {
            i == run.actions.len() - 1
        } else {
            &&& step + i - offset <= READ_STEP
            &&& run.actions[i] == script(run.states[0].resolution, address)[step + i - offset]
        })
}

proof fn lemma_running(run: Run, state: DriverState, offset: int, address: u64, step: u8, i: int)
    requires
        state.valid(),
        run.starts_from(state),
        0 <= offset <= i < run.states.len(),
        step <= READ_STEP,
        run.states[offset].valid(),
        run.states[offset].resolution == run.states[0].resolution,
        run.states[offset].phase == (Phase::Running { address, step }),
        run.actions[offset] == script(run.states[0].resolution, address)[step as int],
    ensures
        run.states[i].valid(),
        run.states[i].resolution == run.states[0].resolution,
        run.actions[i] is Finish ==> run.states[i].phase is Idle && i == run.actions.len() - 1,
        run.actions[i] !is Finish ==> {
            &&& step + i - offset <= READ_STEP
            &&& run.states[i].phase == (Phase::Running {
                address,
                step: (step + i - offset) as u8,
            })
            &&& run.actions[i] == script(run.states[0].resolution, address)[step + i - offset]
        },
    decreases i - offset,
{
    if i > offset {
        lemma_running(run, state, offset, address, step, i - 1);
        let event = run.events[i - 1];
        law_every_event_advances_the_read(
            run.states[i - 1],
            event,
            run.states[i],
            run.actions[i],
        );
        assert(run.states[i - 1].awaits(event));
    }
    if run.actions[i] is Finish && i < run.actions.len() - 1 {
        assert(run.states[i].awaits(run.events[i]));
    }
}

/// A read of a remembered device performs exactly the sampling steps of the
/// script, in order, until it ends.
pub proof fn law_a_remembered_device_is_sampled(run: Run, state: DriverState, address: u64)
    requires
        state.valid(),
        state.address == Some(address),
        run.starts_from(state),
    ensures
        performs_script(run, 0, address, FIRST_SAMPLE_STEP as int),
{
    assert forall|i: int| 0 <= i < run.actions.len() implies (if #[trigger] run.actions[i]
        is Finish {
        i == run.actions.len() - 1
    } else {
        &&& FIRST_SAMPLE_STEP + i <= READ_STEP
        &&& run.actions[i] == script(run.states[0].resolution, address)[FIRST_SAMPLE_STEP + i]
    }) by {
        lemma_running(run, state, 0, address, FIRST_SAMPLE_STEP, i);
    }
}

/// A read without a remembered device searches the bus first. If that turns up
/// no DS18B20 the read ends there; otherwise the whole script is performed,
/// the configuration before the sample, until it ends.
pub proof fn law_an_unknown_device_is_found_and_configured_first(run: Run, state: DriverState)
    requires
        state.valid(),
        state.address is None,
        run.starts_from(state),
    ensures
        run.actions[0] is Search,
        run.events.len() > 0 ==> (run.events[0] matches Event::Searched(found) && match discovered(
            found,
        ) {
            Ok(address) => performs_script(run, 1, address, 0),
            Err(error) => {
                &&& run.actions.len() == 2
                &&& run.actions[1] == ActionView::Finish(Err(error))
            },
        }),
{
    if run.events.len() > 0 {
        let event = run.events[0];
        assert(run.states[0].awaits(event));
        law_every_event_advances_the_read(run.states[0], event, run.states[1], run.actions[1]);
        match discovered(event->Searched_0) {
            Ok(address) => {
                assert forall|i: int| 1 <= i < run.actions.len() implies (
                if #[trigger] run.actions[i] is Finish {
                    i == run.actions.len() - 1
                } else {
                    &&& i - 1 <= READ_STEP
                    &&& run.actions[i] == script(run.states[0].resolution, address)[i - 1]
                }) by {
                    lemma_running(run, state, 1, address, 0, i);
                }
            },
            Err(error) => {
                if run.events.len() > 1 {
                    assert(run.states[1].awaits(run.events[1]));
                }
            },
        }
    }
}

proof fn lemma_states_stay_valid(run: Run, state: DriverState, i: int)
    requires
        state.valid(),
        run.starts_from(state),
        0 <= i < run.states.len(),
    ensures
        run.states[i].valid(),
        run.states[i].resolution == state.resolution,
        run.states[i].phase is Idle <==> run.actions[i] is Finish,
        run.actions[i] is Finish ==> 0 < i == run.actions.len() - 1,
    decreases i,
{
    if i > 0 {
        lemma_states_stay_valid(run, state, i - 1);
        law_every_event_advances_the_read(
            run.states[i - 1],
            run.events[i - 1],
            run.states[i],
            run.actions[i],
        );
    }
    if run.actions[i] is Finish && i < run.actions.len() - 1 {
        assert(run.states[i].awaits(run.events[i]));
    }
}

/// The device that a run addresses: the remembered one, or the one that its
/// search settled on.
pub open spec fn addressee(run: Run, state: DriverState) -> Result<u64, ThermometerError> {
    match state.address {
        Some(address) => Ok(address),
        None => discovered(run.events[0]->Searched_0),
    }
}

/// A whole read that ends with any error but a checksum failure leaves no
/// device remembered. One that ends with a temperature or a checksum failure
/// leaves the device remembered that it sampled, which is the one that was
/// remembered before, if any was. The driver is idle again, at the same
/// resolution.
pub proof fn law_a_whole_read_keeps_or_forgets_the_device(
    run: Run,
    state: DriverState,
    result: Result<Celsius, ThermometerError>,
)
    requires
        state.valid(),
        run.starts_from(state),
        run.actions.last() == ActionView::Finish(result),
    ensures
        run.states.last().valid(),
        run.states.last().phase is Idle,
        run.states.last().resolution == state.resolution,
        match result {
            Ok(_) | Err(ThermometerError::Crc) => {
                &&& addressee(run, state) matches Ok(address)
                &&& run.states.last().address == Some(address)
                &&& state.address is Some ==> state.address == Some(address)
            },
            Err(_) => run.states.last().address is None,
        },
{
    let last = run.events.len() as int;
    lemma_states_stay_valid(run, state, last);
    lemma_states_stay_valid(run, state, last - 1);
    let event = run.events[last - 1];
    assert(run.states[last - 1].awaits(event));
    law_failures_forget_the_device(run.states[last - 1], event, run.states[last], result);
    match state.address {
        Some(address) => {
            lemma_running(run, state, 0, address, FIRST_SAMPLE_STEP, last - 1);
        },
        None => {
            let found = run.events[0];
            assert(run.states[0].awaits(found));
            if last > 1 {
                lemma_states_stay_valid(run, state, 1);
                if let Ok(address) = discovered(found->Searched_0) {
                    lemma_running(run, state, 1, address, 0, last - 1);
                }
            }
        },
    }
}

/// The read that follows another searches the bus and configures the device
/// before it samples exactly when the one before ended with an error other
/// than a checksum failure. Otherwise it samples the device of the read before,
/// with neither a search nor a configuration.
pub proof fn law_the_next_read_starts_where_the_last_one_left_off(
    run: Run,
    state: DriverState,
    result: Result<Celsius, ThermometerError>,
    next: Run,
)
    requires
        state.valid(),
        run.starts_from(state),
        run.actions.last() == ActionView::Finish(result),
        next.starts_from(run.states.last()),
    ensures
        match result {
            Ok(_) | Err(ThermometerError::Crc) => {
                &&& addressee(run, state) matches Ok(address)
                &&& performs_script(next, 0, address, FIRST_SAMPLE_STEP as int)
            },
            Err(_) => {
                &&& next.actions[0] is Search
                &&& next.events.len() > 0 ==> match discovered(next.events[0]->Searched_0) {
                    Ok(address) => performs_script(next, 1, address, 0),
                    Err(error) => next.actions.len() == 2 && next.actions[1]
                        == ActionView::Finish(Err(error)),
                }
            },
        },
{
    law_a_whole_read_keeps_or_forgets_the_device(run, state, result);
    let between = run.states.last();
    match between.address {
        Some(address) => law_a_remembered_device_is_sampled(next, between, address),
        None => law_an_unknown_device_is_found_and_configured_first(next, between),
    }
}

/// No read retries: it searches the bus only at its start, and waits for a
/// conversion and reads the scratchpad at most once each, whatever fails.
pub proof fn law_a_read_samples_at_most_once(run: Run, state: DriverState, i: int, j: int)
    requires
        state.valid(),
        run.starts_from(state),
        0 <= i < j < run.actions.len(),
    ensures
        run.actions[j] !is Search,
        run.actions[i] is Delay ==> run.actions[j] !is Delay,
        run.actions[i] is ReadScratchpad ==> run.actions[j] !is ReadScratchpad,
{
    match state.address {
        Some(address) => law_a_remembered_device_is_sampled(run, state, address),
        None => law_an_unknown_device_is_found_and_configured_first(run, state),
    }
}

/// Every command of the script is directly preceded by a bus reset, and it
/// reaches no device but the one at `address`.
pub proof fn law_commands_are_addressed(
    resolution: Resolution,
    address: u64,
    other: u64,
    instruction: u8,
    step: int,
)
    requires
        0 <= step <= READ_STEP,
        script(resolution, address)[step] == ActionView::Write(addressed(other, instruction)),
    ensures
        other == address,
        step > 0,
        script(resolution, address)[step - 1] is Reset,
{
    let bytes = addressed(other, instruction);
    assert(bytes.len() == COMMAND_LEN);
    if step == 2 {
        assert(script(resolution, address)[step]->Write_0.len() == REGISTERS_LEN);
    } else {
        let own = script(resolution, address)[step]->Write_0;
        assert forall|k: int| 0 <= k < 8 implies #[trigger] address_bytes(address)[k]
            == address_bytes(other)[k] by {
            assert(own[k + 1] == address_bytes(address)[k]);
            assert(bytes[k + 1] == address_bytes(other)[k]);
        }
        assert(address_bytes(address) =~= address_bytes(other));
        lemma_address_bytes_are_exact(address, other);
    }
}

proof fn lemma_address_bytes_are_exact(a: u64, b: u64)
    requires
        address_bytes(a) == address_bytes(b),
    ensures
        a == b,
{
    let p = address_bytes(a);
    let q = address_bytes(b);
    assert(p[0] == q[0] && p[1] == q[1] && p[2] == q[2] && p[3] == q[3]);
    assert(p[4] == q[4] && p[5] == q[5] && p[6] == q[6] && p[7] == q[7]);
    assert(a == b) by (bit_vector)
        requires
            a % 256 == b % 256,
            a / 0x100 % 256 == b / 0x100 % 256,
            a / 0x1_0000 % 256 == b / 0x1_0000 % 256,
            a / 0x100_0000 % 256 == b / 0x100_0000 % 256,
            a / 0x1_0000_0000 % 256 == b / 0x1_0000_0000 % 256,
            a / 0x100_0000_0000 % 256 == b / 0x100_0000_0000 % 256,
            a / 0x1_0000_0000_0000 % 256 == b / 0x1_0000_0000_0000 % 256,
            a / 0x100_0000_0000_0000 % 256 == b / 0x100_0000_0000_0000 % 256,
    ;
}

/// An error code is a timeout or an absent device if ESP-IDF says so in as many
/// words, and a failure of the bus if it says anything else.
pub proof fn law_error_codes_have_one_class(code: i32, error: ThermometerError)
    requires
        call_ensures(classify, (code,), error),
    ensures
        error == ThermometerError::Timeout <==> code == 0x107,
        error == ThermometerError::NotPresent <==> code == 0x105,
        error == ThermometerError::Bus <==> code != 0x107 && code != 0x105,
{
}

/// A search that found a device settles on exactly that device if the low byte
/// of its address is 0x28, whatever the other seven bytes are, and on none
/// otherwise. A search that failed is classed as any other failure.
pub proof fn law_every_ds18b20_is_present(
    address: u64,
    code: i32,
    error: ThermometerError,
    of_device: Result<u64, ThermometerError>,
    of_nothing: Result<u64, ThermometerError>,
    of_failure: Result<u64, ThermometerError>,
)
    requires
        call_ensures(classify, (code,), error),
        call_ensures(discover, (Ok(Some(address)),), of_device),
        call_ensures(discover, (Ok(None),), of_nothing),
        call_ensures(discover, (Err(code),), of_failure),
    ensures
        address % 256 == 0x28 ==> of_device == Ok::<u64, ThermometerError>(address),
        address % 256 != 0x28 ==> of_device == Err::<u64, _>(ThermometerError::NotPresent),
        of_nothing == Err::<u64, _>(ThermometerError::NotPresent),
        of_failure == Err::<u64, _>(error),
{
}

/// The family code of an address is what its other bytes leave of it.
pub proof fn law_the_family_is_the_low_byte(address: u64, family: u8)
    requires
        call_ensures(family_code, (address,), family),
    ensures
        (address - family) % 256 == 0,
{
}

/// Whether `bytes` give `instruction` to the device at `address`: behind the
/// ROM command stand eight bytes that add up to the address, each weighed 256
/// times as much as the one before, and then the instruction.
pub open spec fn gives(bytes: Seq<u8>, address: u64, instruction: int) -> bool {
    &&& bytes.len() == 10
    &&& bytes[0] == 0x55
    &&& bytes[1] + bytes[2] * 0x100 + bytes[3] * 0x1_0000 + bytes[4] * 0x100_0000 + bytes[5]
        * 0x1_0000_0000 + bytes[6] * 0x100_0000_0000 + bytes[7] * 0x1_0000_0000_0000 + bytes[8]
        * 0x100_0000_0000_0000 == address
    &&& bytes[9] == instruction
}

proof fn lemma_addressed_gives(address: u64, instruction: u8)
    ensures
        gives(addressed(address, instruction), address, instruction as int),
{
    let bytes = addressed(address, instruction);
    let places = address_bytes(address);
    assert forall|k: int| 0 <= k < 8 implies bytes[k + 1] == #[trigger] places[k] by {}
    assert(bytes[1] == places[0] && bytes[2] == places[1] && bytes[3] == places[2] && bytes[4]
        == places[3]);
    assert(bytes[5] == places[4] && bytes[6] == places[5] && bytes[7] == places[6] && bytes[8]
        == places[7]);
    assert(address / 0x1_0000 == address / 0x100 / 256);
    assert(address / 0x100_0000 == address / 0x1_0000 / 256);
    assert(address / 0x1_0000_0000 == address / 0x100_0000 / 256);
    assert(address / 0x100_0000_0000 == address / 0x1_0000_0000 / 256);
    assert(address / 0x1_0000_0000_0000 == address / 0x100_0000_0000 / 256);
    assert(address / 0x100_0000_0000_0000 == address / 0x1_0000_0000_0000 / 256);
}

/// The bytes of a command between the ROM command and the instruction add up
/// to the address, lowest byte first.
pub proof fn law_a_command_spells_out_the_address(
    address: u64,
    instruction: u8,
    frame: [u8; COMMAND_LEN],
)
    requires
        call_ensures(command, (address, instruction), frame),
    ensures
        frame@.len() == 10,
        frame@[0] == 0x55,
        frame@[1] + frame@[2] * 0x100 + frame@[3] * 0x1_0000 + frame@[4] * 0x100_0000 + frame@[5]
            * 0x1_0000_0000 + frame@[6] * 0x100_0000_0000 + frame@[7] * 0x1_0000_0000_0000
            + frame@[8] * 0x100_0000_0000_0000 == address,
        frame@[9] == instruction,
{
    lemma_addressed_gives(address, instruction);
}

/// The registers hold the alarm defaults and the configuration byte that the
/// datasheet gives for the resolution. So the registers of two resolutions
/// differ, in the configuration byte alone.
pub proof fn law_the_registers_select_the_resolution(
    a: Resolution,
    b: Resolution,
    registers_a: [u8; REGISTERS_LEN],
    registers_b: [u8; REGISTERS_LEN],
)
    requires
        call_ensures(registers, (a,), registers_a),
        call_ensures(registers, (b,), registers_b),
    ensures
        registers_a@ == match a {
            Resolution::Bits9 => seq![0x4Bu8, 0x46u8, 0x1Fu8],
            Resolution::Bits10 => seq![0x4Bu8, 0x46u8, 0x3Fu8],
            Resolution::Bits11 => seq![0x4Bu8, 0x46u8, 0x5Fu8],
            Resolution::Bits12 => seq![0x4Bu8, 0x46u8, 0x7Fu8],
        },
        registers_a@[2] == registers_b@[2] <==> a == b,
{
}

/// An action is seen with the payload that it carries.
pub proof fn law_actions_are_seen_as_they_are(action: Action)
    ensures
        match action {
            Action::Search => action@ is Search,
            Action::Reset => action@ is Reset,
            Action::WriteCommand(bytes) => action@ == ActionView::Write(bytes@),
            Action::WriteRegisters(bytes) => action@ == ActionView::Write(bytes@),
            Action::Delay(ms) => action@ matches ActionView::Delay(seen) && seen == ms,
            Action::ReadScratchpad => action@ is ReadScratchpad,
            Action::Finish(result) => action@ == ActionView::Finish(result),
        },
{
}

/// What a read asks of the bus, action by action. An unknown device is searched
/// for, and then configured: after a reset the device is told to take in its
/// registers, which are the alarm defaults and the configuration byte of the
/// driver's own resolution. A device that is known is sampled: after a reset it
/// is told to convert, it gets the time of its resolution and 50 ms more, and
/// after another reset it is told to give its scratchpad, which is then read.
/// The device is the remembered one, or else the one that the search found.
pub proof fn law_a_read_asks_for_what_the_datasheet_says(run: Run, state: DriverState, i: int)
    requires
        state.valid(),
        run.starts_from(state),
        0 <= i < run.actions.len(),
        run.actions[i] !is Finish,
    ensures
        state.address is None && i == 0 ==> run.actions[i] is Search,
        state.address is Some || i > 0 ==> ({
            let place = if state.address is Some {
                i + 3
            } else {
                i - 1
            };
            &&& addressee(run, state) matches Ok(address)
            &&& match state.address {
                Some(remembered) => address == remembered,
                None => run.events[0] == Event::Searched(Ok(Some(address))),
            }
            &&& address % 256 == 0x28
            &&& 0 <= place <= 8
            &&& place == 0 || place == 3 || place == 6 ==> run.actions[i] is Reset
            &&& place == 1 ==> (run.actions[i] matches ActionView::Write(bytes) && gives(
                bytes,
                address,
                0x4E,
            ))
            &&& place == 2 ==> run.actions[i] == ActionView::Write(
                match state.resolution {
                    Resolution::Bits9 => seq![0x4Bu8, 0x46u8, 0x1Fu8],
                    Resolution::Bits10 => seq![0x4Bu8, 0x46u8, 0x3Fu8],
                    Resolution::Bits11 => seq![0x4Bu8, 0x46u8, 0x5Fu8],
                    Resolution::Bits12 => seq![0x4Bu8, 0x46u8, 0x7Fu8],
                },
            )
            &&& place == 4 ==> (run.actions[i] matches ActionView::Write(bytes) && gives(
                bytes,
                address,
                0x44,
            ))
            &&& place == 5 ==> run.actions[i] == ActionView::Delay(
                match state.resolution {
                    Resolution::Bits9 => 144,
                    Resolution::Bits10 => 238,
                    Resolution::Bits11 => 425,
                    Resolution::Bits12 => 800,
                },
            )
            &&& place == 7 ==> (run.actions[i] matches ActionView::Write(bytes) && gives(
                bytes,
                address,
                0xBE,
            ))
            &&& place == 8 ==> run.actions[i] is ReadScratchpad
        }),
{
    match state.address {
        Some(address) => {
            law_a_remembered_device_is_sampled(run, state, address);
            lemma_addressed_gives(address, CONVERT_TEMPERATURE);
            lemma_addressed_gives(address, READ_SCRATCHPAD);
        },
        None => {
            law_an_unknown_device_is_found_and_configured_first(run, state);
            if i > 0 {
                if let Ok(address) = addressee(run, state) {
                    lemma_addressed_gives(address, WRITE_SCRATCHPAD);
                    lemma_addressed_gives(address, CONVERT_TEMPERATURE);
                    lemma_addressed_gives(address, READ_SCRATCHPAD);
                    if i == 3 {
                        let bytes = run.actions[i]->Write_0;
                        match state.resolution {
                            Resolution::Bits9 => assert(bytes =~= seq![0x4Bu8, 0x46u8, 0x1Fu8]),
                            Resolution::Bits10 => assert(bytes =~= seq![0x4Bu8, 0x46u8, 0x3Fu8]),
                            Resolution::Bits11 => assert(bytes =~= seq![0x4Bu8, 0x46u8, 0x5Fu8]),
                            Resolution::Bits12 => assert(bytes =~= seq![0x4Bu8, 0x46u8, 0x7Fu8]),
                        }
                    }
                }
            }
        },
    }
}

/// Two reads of unknown devices write the same registers exactly when their
/// drivers have the same resolution.
pub proof fn law_different_resolutions_are_configured_differently(
    run: Run,
    state: DriverState,
    other_run: Run,
    other_state: DriverState,
)
    requires
        state.valid(),
        other_state.valid(),
        state.address is None,
        other_state.address is None,
        run.starts_from(state),
        other_run.starts_from(other_state),
        run.actions.len() > 3,
        other_run.actions.len() > 3,
        run.actions[3] !is Finish,
        other_run.actions[3] !is Finish,
    ensures
        run.actions[3] == other_run.actions[3] <==> state.resolution == other_state.resolution,
{
    law_a_read_asks_for_what_the_datasheet_says(run, state, 3);
    law_a_read_asks_for_what_the_datasheet_says(other_run, other_state, 3);
    let bytes = run.actions[3]->Write_0;
    let others = other_run.actions[3]->Write_0;
    assert(bytes[2] == others[2] <==> state.resolution == other_state.resolution);
}

/// A read goes on exactly while the bus does what it was asked to: it ends with
/// the first failure, with a search that turns up no DS18B20, or with the
/// scratchpad. The scratchpad that ends it is read as a temperature exactly if
/// its checksum is zero.
pub proof fn law_what_ends_a_read(
    state: DriverState,
    event: Event,
    next: DriverState,
    action: ActionView,
)
    requires
        state.valid(),
        state.awaits(event),
        state.responds(event, next, action),
    ensures
        action is Finish <==> match event {
            Event::Searched(Ok(Some(address))) => address % 256 != 0x28,
            Event::Done(Ok(())) => false,
            _ => true,
        },
        event matches Event::Received(Ok(scratchpad)) ==> match action {
            ActionView::Finish(Ok(celsius)) => {
                &&& crate::ds18b20::checksum(scratchpad@) == 0
                &&& -0x8000 <= celsius@ < 0x8000
                &&& celsius@ % 256 == scratchpad@[0]
                &&& celsius@ / 256 % 256 == scratchpad@[1]
            },
            ActionView::Finish(Err(error)) => {
                &&& crate::ds18b20::checksum(scratchpad@) != 0
                &&& error == ThermometerError::Crc
            },
            _ => false,
        },
{
}

/// Each action is answered by one kind of event, whatever came of it: a search
/// by what it found, a read of the scratchpad by its bytes, and any other
/// action by its end. After the last action no answer is awaited.
pub proof fn law_every_action_has_its_answer(run: Run, state: DriverState, i: int, event: Event)
    requires
        state.valid(),
        run.starts_from(state),
        0 <= i < run.actions.len(),
    ensures
        run.states[i].awaits(event) <==> match run.actions[i] {
            ActionView::Search => event is Searched,
            ActionView::ReadScratchpad => event is Received,
            ActionView::Finish(_) => false,
            _ => event is Done,
        },
{
    lemma_states_stay_valid(run, state, i);
    match state.address {
        Some(address) => lemma_running(run, state, 0, address, FIRST_SAMPLE_STEP, i),
        None => {
            law_an_unknown_device_is_found_and_configured_first(run, state);
            if i > 0 {
                assert(run.states[0].awaits(run.events[0]));
                if let Ok(address) = addressee(run, state) {
                    lemma_running(run, state, 1, address, 0, i);
                }
            }
        },
    }
}

/// A failure is named after what the read was at: the search, the configuration
/// while the device is not remembered yet, and then the conversion until its
/// time is over, or the collection of its result.
pub proof fn law_failures_are_named_after_their_operation(
    driver: Ds18b20,
    name: Option<&'static str>,
)
    requires
        driver@.valid(),
        call_ensures(Ds18b20::operation, (&driver,), name),
    ensures
        match driver@.phase {
            Phase::Idle => name is None,
            Phase::Searching => name is Some && name->0@ == "search"@,
            Phase::Running { step, .. } => {
                &&& name is Some
                &&& driver@.address is None ==> name->0@ == "write scratchpad"@
                &&& driver@.address is Some && step <= 5 ==> name->0@ == "convert"@
                &&& step > 5 ==> name->0@ == "read scratchpad"@
            },
        },
{
}

/// A new driver has the resolution that it was asked for, and neither a device
/// nor a read under way.
pub proof fn law_a_new_driver_knows_no_device(resolution: Resolution, driver: Ds18b20)
    requires
        call_ensures(Ds18b20::new, (resolution,), driver),
    ensures
        driver@.resolution == resolution,
        driver@.address is None,
        driver@.phase is Idle,
{
}

/// A read starts with a search exactly when no device is remembered, and with a
/// reset otherwise. That changes neither the resolution nor what is remembered.
pub proof fn law_reads_start_with_a_search_or_a_reset(driver: &mut Ds18b20, action: Action)
    requires
        call_ensures(Ds18b20::begin, (driver,), action),
    ensures
        final(driver)@.resolution == old(driver)@.resolution,
        final(driver)@.address == old(driver)@.address,
        match old(driver)@.address {
            Some(address) => action is Reset && final(driver)@.phase == (Phase::Running {
                address,
                step: 3,
            }),
            None => action is Search && final(driver)@.phase is Searching,
        },
{
}

/// What the driver asks for next while a read is under way. Its resolution never
/// changes, and what it writes and how long it waits follow from that and from
/// the device that it is at: the registers are the alarm defaults and the
/// configuration byte of its resolution, a command is for that device, and the
/// wait is the conversion time of its resolution and 50 ms more. The device is
/// remembered from the moment the registers are written.
pub proof fn law_the_driver_asks_in_its_own_resolution(
    driver: &mut Ds18b20,
    event: Event,
    action: Action,
)
    requires
        old(driver)@.awaits(event),
        call_ensures(Ds18b20::resume, (driver, event), action),
    ensures
        final(driver)@.resolution == old(driver)@.resolution,
        final(driver)@.phase matches Phase::Running { address, step } ==> final(driver)@.address
            == if step >= 3 {
            Some(address)
        } else {
            None
        },
        match action {
            Action::Search => false,
            Action::Finish(_) => final(driver)@.phase is Idle,
            Action::WriteRegisters(bytes) => bytes@ == match old(driver)@.resolution {
                Resolution::Bits9 => seq![0x4Bu8, 0x46u8, 0x1Fu8],
                Resolution::Bits10 => seq![0x4Bu8, 0x46u8, 0x3Fu8],
                Resolution::Bits11 => seq![0x4Bu8, 0x46u8, 0x5Fu8],
                Resolution::Bits12 => seq![0x4Bu8, 0x46u8, 0x7Fu8],
            },
            Action::WriteCommand(bytes) => {
                &&& old(driver)@.phase matches Phase::Running { address, step }
                &&& final(driver)@.phase == (Phase::Running { address, step: (step + 1) as u8 })
                &&& (step == 0 && gives(bytes@, address, 0x4E)) || (step == 3 && gives(
                    bytes@,
                    address,
                    0x44,
                )) || (step == 6 && gives(bytes@, address, 0xBE))
            },
            Action::Delay(ms) => ms == match old(driver)@.resolution {
                Resolution::Bits9 => 144u32,
                Resolution::Bits10 => 238u32,
                Resolution::Bits11 => 425u32,
                Resolution::Bits12 => 800u32,
            },
            Action::Reset | Action::ReadScratchpad => final(driver)@.phase is Running,
        },
{
    if let Phase::Running { address, step } = old(driver)@.phase {
        lemma_addressed_gives(address, WRITE_SCRATCHPAD);
        lemma_addressed_gives(address, CONVERT_TEMPERATURE);
        lemma_addressed_gives(address, READ_SCRATCHPAD);
        if event == Event::Done(Ok(())) {
            let next = step + 1;
            assert(action@ == script(old(driver)@.resolution, address)[next]);
            assert(next == 1 || next == 2 || next == 3 || next == 4 || next == 5 || next == 6
                || next == 7 || next == 8);
        }
        if let Action::WriteCommand(bytes) = action {
            assert(bytes@.len() == COMMAND_LEN);
            assert(script(old(driver)@.resolution, address)[2]->Write_0.len() == REGISTERS_LEN);
        }
        if let Action::WriteRegisters(bytes) = action {
            match old(driver)@.resolution {
                Resolution::Bits9 => assert(bytes@ =~= seq![0x4Bu8, 0x46u8, 0x1Fu8]),
                Resolution::Bits10 => assert(bytes@ =~= seq![0x4Bu8, 0x46u8, 0x3Fu8]),
                Resolution::Bits11 => assert(bytes@ =~= seq![0x4Bu8, 0x46u8, 0x5Fu8]),
                Resolution::Bits12 => assert(bytes@ =~= seq![0x4Bu8, 0x46u8, 0x7Fu8]),
            }
        }
    }
}

/// Whatever the driver was at, a failure ends the read with its class, and the
/// device is forgotten.
pub proof fn law_a_failure_ends_the_read(
    driver: &mut Ds18b20,
    event: Event,
    code: i32,
    error: ThermometerError,
    action: Action,
)
    requires
        event == Event::Searched(Err(code)) || event == Event::Done(Err(code)) || event
            == Event::Received(Err(code)),
        old(driver)@.awaits(event),
        call_ensures(classify, (code,), error),
        call_ensures(Ds18b20::resume, (driver, event), action),
    ensures
        action@ == ActionView::Finish(Err(error)),
        final(driver)@.phase is Idle,
        final(driver)@.address is None,
{
}

/// A search ends the read as long as it settles on no device. If it does settle
/// on one the script starts for that device, which is not remembered yet.
pub proof fn law_a_search_starts_the_script(
    driver: &mut Ds18b20,
    found: Result<Option<u64>, i32>,
    device: Result<u64, ThermometerError>,
    action: Action,
)
    requires
        old(driver)@.awaits(Event::Searched(found)),
        call_ensures(discover, (found,), device),
        call_ensures(Ds18b20::resume, (driver, Event::Searched(found)), action),
    ensures
        final(driver)@.address is None,
        match device {
            Ok(address) => action@ is Reset && final(driver)@.phase == (Phase::Running {
                address,
                step: 0,
            }),
            Err(error) => action@ == ActionView::Finish(Err(error)) && final(driver)@.phase is Idle,
        },
{
}

/// A scratchpad ends the read with what it decodes to, and the device stays
/// remembered whatever that is.
pub proof fn law_a_scratchpad_ends_the_read(
    driver: &mut Ds18b20,
    scratchpad: [u8; SCRATCHPAD_LEN],
    parsed: Result<Celsius, ThermometerError>,
    action: Action,
)
    requires
        old(driver)@.awaits(Event::Received(Ok(scratchpad))),
        call_ensures(parse_scratchpad, (&scratchpad,), parsed),
        call_ensures(Ds18b20::resume, (driver, Event::Received(Ok(scratchpad))), action),
    ensures
        action@ == ActionView::Finish(parsed),
        final(driver)@.phase is Idle,
        final(driver)@.resolution == old(driver)@.resolution,
        final(driver)@.address is Some,
        final(driver)@.address == old(driver)@.address,
{
    if let ActionView::Finish(Ok(celsius)) = action@ {
        crate::temperature::law_equality_is_exact(celsius, parsed->Ok_0);
    }
}

} // verus!
