//! State of the UI helpers that is independent of the rendering toolkit:
//! font choice, the message composer, onboarding, settings and the scripted
//! debug scenario.
use vstd::prelude::*;
use crate::text::{int_text, nat_text, push_int, push_nat};
use crate::types::{clamp_i64, sub_clamped};

verus! {

/// A font family the UI can use.
#[derive(Debug, Clone, Copy, PartialEq, Eq, Structural)]
pub enum FontFamily {
    /// Noto Sans JP, with Japanese and emoji coverage.
    NotoSansJP,
    /// The system's default.
    SystemDefault,
}

impl FontFamily {
    pub fn name(&self) -> (r: &'static str)
        ensures
            r@ == match self {
                FontFamily::NotoSansJP => "Noto Sans JP"@,
                FontFamily::SystemDefault => "System Default"@,
            },
    {
        match self {
            FontFamily::NotoSansJP => "Noto Sans JP",
            FontFamily::SystemDefault => "System Default",
        }
    }

    /// Every font family, Noto Sans JP first.
    pub fn all() -> (r: Vec<FontFamily>)
        ensures
            r@ == seq![FontFamily::NotoSansJP, FontFamily::SystemDefault],
    {
        let r = vec![FontFamily::NotoSansJP, FontFamily::SystemDefault];
        assert(r@ =~= seq![FontFamily::NotoSansJP, FontFamily::SystemDefault]);
        r
    }
}

/// The font settings.
#[derive(Debug, Clone, Copy, PartialEq, Eq, Structural)]
pub struct FontConfig {
    pub font_family: FontFamily,
}

impl Default for FontConfig {
    fn default() -> (r: Self)
        ensures
            r.font_family == FontFamily::NotoSansJP,
    {
        FontConfig { font_family: FontFamily::NotoSansJP }
    }
}

/// The text being composed.
pub struct Composer {
    pub text: String,
}

impl Composer {
    pub fn new() -> (r: Self)
        ensures
            r.text@.len() == 0,
    {
        Composer { text: String::new() }
    }

    /// Empties the text.
    pub fn clear(&mut self)
        ensures
            final(self).text@.len() == 0,
    {
        self.text = String::new();
    }
}

/// The steps of onboarding.
#[derive(Debug, Clone, Copy, PartialEq, Eq, Structural)]
pub enum OnboardingStep {
    Welcome,
    ChooseSigner,
    ImportKey,
    CreateKey,
    Completed,
}

/// How the user chose to sign.
#[derive(Debug, Clone)]
pub enum OnboardingResult {
    Nip07,
    ImportKey { nsec: String, passphrase: String },
    CreateKey { passphrase: String },
}

/// The onboarding flow's state.
pub struct Onboarding {
    pub step: OnboardingStep,
    pub nsec_input: String,
    pub passphrase_input: String,
    pub error_message: Option<String>,
}

impl Onboarding {
    pub fn new() -> (r: Self)
        ensures
            r.step == OnboardingStep::Welcome,
            r.nsec_input@.len() == 0,
            r.passphrase_input@.len() == 0,
            r.error_message is None,
    {
        Onboarding {
            step: OnboardingStep::Welcome,
            nsec_input: String::new(),
            passphrase_input: String::new(),
            error_message: None,
        }
    }
}

/// The settings screen's state.
pub struct SettingsView {
    font_config: FontConfig,
    font_changed: bool,
}

pub ghost struct SettingsState {
    pub font_config: FontConfig,
    pub font_changed: bool,
}

impl View for SettingsView {
    type V = SettingsState;

    closed spec fn view(&self) -> SettingsState {
        SettingsState { font_config: self.font_config, font_changed: self.font_changed }
    }
}

impl SettingsView {
    /// A settings screen showing the font settings that were loaded.
    pub fn new(font_config: FontConfig) -> (r: Self)
        ensures
            r@.font_config == font_config,
            !r@.font_changed,
    {
        SettingsView { font_config, font_changed: false }
    }


    pub fn font_config(&self) -> (r: &FontConfig)
        ensures
            *r == self@.font_config,
    {
        &self.font_config
    }

    /// Chooses a font family; a change from the current one is remembered.
    pub fn select_font(&mut self, family: FontFamily)
        ensures
            final(self)@.font_config.font_family == family,
            final(self)@.font_changed == (old(self)@.font_changed || family != old(self)@.font_config.font_family),
    {
        if family != self.font_config.font_family {
            self.font_changed = true;
        }
        self.font_config.font_family = family;
    }

    pub fn is_font_changed(&self) -> (r: bool)
        ensures
            r == self@.font_changed,
    {
        self.font_changed
    }
}

/// A step of the scripted debug scenario.
#[derive(Debug, Clone)]
pub enum TestStep {
    Idle,
    OnboardingCreateKey,
    TransitionToMain,
    OpenChannel { channel_id: String },
    SendMessage { content: String },
    VerifyTimeline,
    OpenDm { peer: String },
    SendDm { content: String },
    Completed,
}

pub ghost enum StepView {
    Idle,
    OnboardingCreateKey,
    TransitionToMain,
    OpenChannel { channel_id: Seq<char> },
    SendMessage { content: Seq<char> },
    VerifyTimeline,
    OpenDm { peer: Seq<char> },
    SendDm { content: Seq<char> },
    Completed,
}

impl View for TestStep {
    type V = StepView;

    open spec fn view(&self) -> StepView {
        match self {
            TestStep::Idle => StepView::Idle,
            TestStep::OnboardingCreateKey => StepView::OnboardingCreateKey,
            TestStep::TransitionToMain => StepView::TransitionToMain,
            TestStep::OpenChannel { channel_id } => StepView::OpenChannel { channel_id: channel_id@ },
            TestStep::SendMessage { content } => StepView::SendMessage { content: content@ },
            TestStep::VerifyTimeline => StepView::VerifyTimeline,
            TestStep::OpenDm { peer } => StepView::OpenDm { peer: peer@ },
            TestStep::SendDm { content } => StepView::SendDm { content: content@ },
            TestStep::Completed => StepView::Completed,
        }
    }
}

/// How a step is shown: its name, and its argument quoted.
pub open spec fn step_label(s: StepView) -> Seq<char> {
    match s {
        StepView::Idle => "Idle"@,
        StepView::OnboardingCreateKey => "OnboardingCreateKey"@,
        StepView::TransitionToMain => "TransitionToMain"@,
        StepView::OpenChannel { channel_id } => "OpenChannel { channel_id: \""@ + channel_id + "\" }"@,
        StepView::SendMessage { content } => "SendMessage { content: \""@ + content + "\" }"@,
        StepView::VerifyTimeline => "VerifyTimeline"@,
        StepView::OpenDm { peer } => "OpenDm { peer: \""@ + peer + "\" }"@,
        StepView::SendDm { content } => "SendDm { content: \""@ + content + "\" }"@,
        StepView::Completed => "Completed"@,
    }
}

impl TestStep {
    /// A copy of the step.
    pub fn copy(&self) -> (r: TestStep)
        ensures
            r@ == self@,
    {
        match self {
            TestStep::Idle => TestStep::Idle,
            TestStep::OnboardingCreateKey => TestStep::OnboardingCreateKey,
            TestStep::TransitionToMain => TestStep::TransitionToMain,
            TestStep::OpenChannel { channel_id } => TestStep::OpenChannel { channel_id: channel_id.clone() },
            TestStep::SendMessage { content } => TestStep::SendMessage { content: content.clone() },
            TestStep::VerifyTimeline => TestStep::VerifyTimeline,
            TestStep::OpenDm { peer } => TestStep::OpenDm { peer: peer.clone() },
            TestStep::SendDm { content } => TestStep::SendDm { content: content.clone() },
            TestStep::Completed => TestStep::Completed,
        }
    }

    /// Appends the step's label to `s`.
    pub fn push_label(&self, s: &mut String)
        ensures
            final(s)@ == old(s)@ + step_label(self@),
    {
        match self {
            TestStep::Idle => s.append("Idle"),
            TestStep::OnboardingCreateKey => s.append("OnboardingCreateKey"),
            TestStep::TransitionToMain => s.append("TransitionToMain"),
            TestStep::OpenChannel { channel_id } => {
                s.append("OpenChannel { channel_id: \"");
                s.append(channel_id.as_str());
                s.append("\" }");
            },
            TestStep::SendMessage { content } => {
                s.append("SendMessage { content: \"");
                s.append(content.as_str());
                s.append("\" }");
            },
            TestStep::VerifyTimeline => s.append("VerifyTimeline"),
            TestStep::OpenDm { peer } => {
                s.append("OpenDm { peer: \"");
                s.append(peer.as_str());
                s.append("\" }");
            },
            TestStep::SendDm { content } => {
                s.append("SendDm { content: \"");
                s.append(content.as_str());
                s.append("\" }");
            },
            TestStep::Completed => s.append("Completed"),
        }
        assert(final(s)@ =~= old(s)@ + step_label(self@));
    }
}

pub open spec fn steps_view(v: Seq<TestStep>) -> Seq<StepView> {
    v.map_values(|t: TestStep| t@)
}

/// The scripted debug scenario: its steps and where it stands.
pub struct DebugTestRunner {
    enabled: bool,
    current_step: TestStep,
    step_index: usize,
    frame_counter: u32,
    wait_frames: u32,
    scenario: Vec<TestStep>,
}

pub ghost struct RunnerView {
    pub enabled: bool,
    pub current: StepView,
    pub index: nat,
    pub frame_counter: nat,
    pub wait_frames: nat,
    pub scenario: Seq<StepView>,
}

impl View for DebugTestRunner {
    type V = RunnerView;

    closed spec fn view(&self) -> RunnerView {
        RunnerView {
            enabled: self.enabled,
            current: self.current_step@,
            index: self.step_index as nat,
            frame_counter: self.frame_counter as nat,
            wait_frames: self.wait_frames as nat,
            scenario: steps_view(self.scenario@),
        }
    }
}

/// The scripted scenario: onboarding, opening a channel, sending a message
/// and checking the timeline.
pub open spec fn debug_scenario() -> Seq<StepView> {
    seq![
        StepView::Idle,
        StepView::OnboardingCreateKey,
        StepView::TransitionToMain,
        StepView::OpenChannel { channel_id: "test_channel_001"@ },
        StepView::SendMessage { content: "🤖 自動テスト: Hello from debug mode!"@ },
        StepView::VerifyTimeline,
        StepView::Completed,
    ]
}

impl DebugTestRunner {
    pub fn new(enabled: bool) -> (r: Self)
        ensures
            r@ == (RunnerView {
                enabled,
                current: StepView::Idle,
                index: 0,
                frame_counter: 0,
                wait_frames: 60,
                scenario: debug_scenario(),
            }),
    {
        let scenario = vec![
            TestStep::Idle,
            TestStep::OnboardingCreateKey,
            TestStep::TransitionToMain,
            TestStep::OpenChannel { channel_id: String::from_str("test_channel_001") },
            TestStep::SendMessage { content: String::from_str("🤖 自動テスト: Hello from debug mode!") },
            TestStep::VerifyTimeline,
            TestStep::Completed,
        ];
        let r = DebugTestRunner {
            enabled,
            current_step: TestStep::Idle,
            step_index: 0,
            frame_counter: 0,
            wait_frames: 60,
            scenario,
        };
        assert(steps_view(r.scenario@) =~= debug_scenario());
        r
    }

    pub fn is_enabled(&self) -> (r: bool)
        ensures
            r == self@.enabled,
    {
        self.enabled
    }

    pub fn current_step(&self) -> (r: &TestStep)
        ensures
            r@ == self@.current,
    {
        &self.current_step
    }

    /// Moves to the next step of the scenario, or to completion past its
    /// end; the frame count restarts on a step.
    pub fn advance_step(&mut self)
        requires
            old(self)@.index < usize::MAX,
        ensures
            final(self)@.index == old(self)@.index + 1,
            final(self)@.scenario == old(self)@.scenario,
            final(self)@.enabled == old(self)@.enabled,
            final(self)@.wait_frames == old(self)@.wait_frames,
            final(self)@.index < old(self)@.scenario.len() ==> final(self)@.current == old(self)@.scenario[final(self)@.index as int]
                && final(self)@.frame_counter == 0,
            final(self)@.index >= old(self)@.scenario.len() ==> final(self)@.current == StepView::Completed
                && final(self)@.frame_counter == old(self)@.frame_counter,
    {
        self.step_index = self.step_index + 1;
        if self.step_index < self.scenario.len() {
            self.current_step = self.scenario[self.step_index].copy();
            self.frame_counter = 0;
        } else {
            self.current_step = TestStep::Completed;
        }
    }

    /// Counts one frame.
    pub fn count_frame(&mut self)
        ensures
            final(self)@ == (RunnerView {
                frame_counter: if old(self)@.frame_counter < u32::MAX { old(self)@.frame_counter + 1 } else { old(self)@.frame_counter },
                ..old(self)@
            }),
    {
        if self.frame_counter < u32::MAX {
            self.frame_counter = self.frame_counter + 1;
        }
    }

    /// Whether enough frames have passed to run the current step.
    pub fn is_due(&self) -> (r: bool)
        ensures
            r == (self@.frame_counter >= self@.wait_frames),
    {
        self.frame_counter >= self.wait_frames
    }

    /// Sets how many frames to wait before each step.
    pub fn set_wait_frames(&mut self, frames: u32)
        ensures
            final(self)@ == (RunnerView { wait_frames: frames as nat, ..old(self)@ }),
    {
        self.wait_frames = frames;
    }

    /// The status line: empty when disabled; a completion line when done;
    /// else the step number, the scenario length, the step and the frame
    /// count.
    pub fn get_status_text(&self) -> (r: String)
        ensures
            !self@.enabled ==> r@.len() == 0,
            self@.enabled && self@.current == StepView::Completed ==> r@ == "✅ Debug Test: COMPLETED"@,
            self@.enabled && self@.current != StepView::Completed ==> r@ == "🧪 Debug Test: Step "@ + nat_text(self@.index)
                + "/"@ + nat_text(self@.scenario.len()) + " - "@ + step_label(self@.current) + " (frame: "@
                + nat_text(self@.frame_counter) + ")"@,
    {
        if !self.enabled {
            return String::new();
        }
        match &self.current_step {
            TestStep::Completed => String::from_str("✅ Debug Test: COMPLETED"),
            _ => {
                let mut s = String::from_str("🧪 Debug Test: Step ");
                push_nat(&mut s, self.step_index as u64);
                s.append("/");
                push_nat(&mut s, self.scenario.len() as u64);
                s.append(" - ");
                self.current_step.push_label(&mut s);
                s.append(" (frame: ");
                push_nat(&mut s, self.frame_counter as u64);
                s.append(")");
                assert(steps_view(self.scenario@).len() == self.scenario@.len());
                s
            },
        }
    }
}

/// How long ago a moment `age` seconds back is shown: seconds under a
/// minute, whole minutes under an hour, whole hours under a day, else whole
/// days.
pub open spec fn age_text(age: int) -> Seq<char> {
    if age < 60 {
        int_text(age) + "s ago"@
    } else if age < 3600 {
        int_text(age / 60) + "m ago"@
    } else if age < 86400 {
        int_text(age / 3600) + "h ago"@
    } else {
        int_text(age / 86400) + "d ago"@
    }
}

/// Shows how long before `now` the time `ts` was (the difference held to the
/// range of `i64`).
pub fn format_timestamp(ts: i64, now: i64) -> (r: String)
    ensures
        r@ == age_text(clamp_i64(now - ts)),
{
    let diff = sub_clamped(now, ts);
    let mut s = String::new();
    if diff < 60 {
        push_int(&mut s, diff);
        s.append("s ago");
    } else if diff < 3600 {
        push_int(&mut s, diff / 60);
        s.append("m ago");
    } else if diff < 86400 {
        push_int(&mut s, diff / 3600);
        s.append("h ago");
    } else {
        push_int(&mut s, diff / 86400);
        s.append("d ago");
    }
    assert(s@ =~= age_text(clamp_i64(now - ts)));
    s
}

} // verus!
