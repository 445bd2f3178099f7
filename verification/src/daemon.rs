//! The daemon that keeps the overview ready: its protocol, and when it shows, refreshes and
//! rebuilds.

use vstd::prelude::*;

use crate::app::AppTick;
use crate::config::DaemonConfig;
use crate::text;

verus! {

/// How long a client waits for the daemon, in milliseconds.
pub const CLIENT_TIMEOUT_MS: u64 = 700;

/// How long a client that asks for the overview waits, in milliseconds.
pub const SHOW_CLIENT_TIMEOUT_MS: u64 = 120;

/// How long the daemon waits for a message before its next turn, in milliseconds.
pub const MAIN_TICK_MS: u64 = 16;

/// The name of the daemon's socket, in its directory.
pub fn socket_file_name() -> (name: &'static str)
    ensures
        name@ == "socket"@,
{
    "socket"
}

/// The name of the directory of the socket: the plain one inside the user's runtime directory,
/// and one with the user's name where the directory around it is shared.
pub open spec fn directory_name(private: bool, user: Option<String>) -> Seq<char> {
    if private {
        "tobyscope-x11"@
    } else {
        "tobyscope-x11"@ + "-"@ + (match user {
            Some(name) => name@,
            None => "unknown"@,
        })
    }
}

/// The name of the directory of the socket.
pub fn socket_directory(private: bool, user: Option<String>) -> (name: String)
    ensures
        name@ == directory_name(private, user),
{
    let mut name: String = "tobyscope-x11".to_owned();
    if !private {
        name.append("-");
        match user {
            Some(user) => name.append(user.as_str()),
            None => name.append("unknown"),
        }
    }
    name
}

/// What to do about the place of the socket before the daemon listens there.
#[derive(Debug, Clone, Copy, PartialEq, Eq, Structural)]
pub enum SocketPlace {
    /// Nothing is in the way.
    Free,
    /// A socket was left behind: remove it.
    Stale,
    /// Another daemon listens: give up.
    Taken,
}

/// What to do about the place of the socket, where something `exists`, and something `answers`.
pub fn prepare_socket(exists: bool, answers: bool) -> (place: SocketPlace)
    ensures
        place == (if !exists {
            SocketPlace::Free
        } else if answers {
            SocketPlace::Taken
        } else {
            SocketPlace::Stale
        }),
{
    if !exists {
        SocketPlace::Free
    } else if answers {
        SocketPlace::Taken
    } else {
        SocketPlace::Stale
    }
}

/// What the daemon is told.
#[derive(Debug, Clone, Copy, PartialEq, Eq, Structural)]
pub enum DaemonMessage {
    /// Show the overview, as asked for at that time, in milliseconds.
    Show(u128),
    /// The windows may have changed.
    I3Changed,
    Quit,
}

/// What the daemon tells of itself.
#[derive(Debug, Clone, Copy, PartialEq, Eq, Structural)]
pub struct SharedStatus {
    pub windows: usize,
    pub visible: bool,
}

/// A truth value, in words.
pub open spec fn truth(value: bool) -> Seq<char> {
    if value {
        "true"@
    } else {
        "false"@
    }
}

impl SharedStatus {
    /// What the daemon tells of itself, in words.
    pub open spec fn spec_text(self) -> Seq<char> {
        "windows="@ + text::decimal(self.windows as nat) + " visible="@ + truth(self.visible)
            + " cache=warm"@
    }

    /// What the daemon tells of itself, in words.
    pub fn text(&self) -> (line: String)
        ensures
            line@ == self.spec_text(),
    {
        let mut line: String = "windows=".to_owned();
        text::push_decimal(&mut line, self.windows as u128);
        line.append(" visible=");
        line.append(
            if self.visible {
                "true"
            } else {
                "false"
            },
        );
        line.append(" cache=warm");
        line
    }
}

/// The text that came over the socket: decoded, and without the white space around it.
pub open spec fn received(bytes: Seq<u8>) -> Seq<char> {
    text::trimmed(text::decoded(bytes))
}

/// Reads what came over the socket.
pub fn read_message(bytes: &[u8]) -> (message: String)
    ensures
        message@ == received(bytes@),
        vstd::utf8::valid_utf8(bytes@) ==> message@ == text::trimmed(
            vstd::utf8::decode_utf8(bytes@),
        ),
{
    let decoded: String = text::decode_lossy(bytes);
    text::trim(decoded.as_str())
}

/// How the daemon answers a command.
#[derive(Debug)]
pub struct Answer {
    /// What the daemon is told.
    pub message: Option<DaemonMessage>,
    /// What the client is told.
    pub response: String,
    /// The daemon takes no more commands.
    pub stop: bool,
}

/// The time that a request to show the overview names, and `now` where it names none.
pub open spec fn request_time(words: Seq<Seq<char>>, now_ms: u128) -> u128 {
    if words.len() > 1 {
        match text::unsigned_value(words[1], 10) {
            Some(time) => {
                if time <= u128::MAX {
                    time as u128
                } else {
                    now_ms
                }
            },
            None => now_ms,
        }
    } else {
        now_ms
    }
}

/// What the daemon is told by a command of these words.
pub open spec fn told(words: Seq<Seq<char>>, now_ms: u128) -> Option<DaemonMessage> {
    if words.len() == 0 {
        None
    } else if words[0] == "show"@ {
        Some(DaemonMessage::Show(request_time(words, now_ms)))
    } else if words[0] == "quit"@ {
        Some(DaemonMessage::Quit)
    } else {
        None
    }
}

/// What a client is told after a command of these words; nothing is known of a daemon whose
/// status cannot be read.
pub open spec fn told_client(words: Seq<Seq<char>>, status: Option<SharedStatus>) -> Seq<char> {
    if words.len() == 0 {
        "error empty command\n"@
    } else if words[0] == "show"@ {
        "ok\n"@
    } else if words[0] == "status"@ {
        "ok "@ + (match status {
            Some(known) => known.spec_text(),
            None => "status=poisoned"@,
        }) + "\n"@
    } else if words[0] == "quit"@ {
        "ok quitting\n"@
    } else {
        "error unknown command `"@ + words[0] + "`\n"@
    }
}

/// The daemon takes no more commands after one of these words.
pub open spec fn stops(words: Seq<Seq<char>>) -> bool {
    words.len() > 0 && words[0] == "quit"@
}

/// Answers a command.
pub fn answer(command: &str, status: Option<SharedStatus>, now_ms: u128) -> (reply: Answer)
    ensures
        reply.message == told(text::words(command@), now_ms),
        reply.response@ == told_client(text::words(command@), status),
        reply.stop == (text::words(command@).len() > 0 && text::words(command@)[0] == "quit"@),
        reply.stop == stops(text::words(command@)),
{
    let words: Vec<String> = text::split_whitespace(command);
    proof {
        assert(text::views(words@).len() == words@.len());
        reveal_strlit("show");
        reveal_strlit("status");
        reveal_strlit("quit");
        assert("show"@[0] != "quit"@[0] && "show"@[1] != "status"@[1] && "status"@[0]
            != "quit"@[0]);
    }
    if words.len() == 0 {
        return Answer {
            message: None,
            response: "error empty command\n".to_owned(),
            stop: false,
        };
    }
    assert(words@[0]@ == text::words(command@)[0]);
    let verb: &str = words[0].as_str();
    if text::same_text(verb, "show") {
        let requested_at: u128 = if words.len() > 1 {
            assert(words@[1]@ == text::words(command@)[1]);
            match text::parse_unsigned(words[1].as_str(), 10) {
                Some(time) => time,
                None => now_ms,
            }
        } else {
            now_ms
        };
        Answer {
            message: Some(DaemonMessage::Show(requested_at)),
            response: "ok\n".to_owned(),
            stop: false,
        }
    } else if text::same_text(verb, "status") {
        let mut response: String = "ok ".to_owned();
        match status {
            Some(known) => response.append(known.text().as_str()),
            None => response.append("status=poisoned"),
        }
        response.append("\n");
        Answer { message: None, response, stop: false }
    } else if text::same_text(verb, "quit") {
        Answer {
            message: Some(DaemonMessage::Quit),
            response: "ok quitting\n".to_owned(),
            stop: true,
        }
    } else {
        let mut response: String = "error unknown command `".to_owned();
        response.append(verb);
        response.append("`\n");
        Answer { message: None, response, stop: false }
    }
}

/// The answer to a command that could not be read.
pub fn unreadable(error: &str) -> (response: String)
    ensures
        response@ == "error "@ + error@ + "\n"@,
{
    let mut response: String = "error ".to_owned();
    response.append(error);
    response.append("\n");
    response
}

/// The line that asks for the overview.
pub open spec fn show_line(now_ms: nat) -> Seq<char> {
    "show "@ + text::decimal(now_ms) + "\n"@
}

/// The line that asks for the overview at a time.
pub fn show_command(now_ms: u128) -> (line: String)
    ensures
        line@ == show_line(now_ms as nat),
{
    let mut line: String = "show ".to_owned();
    text::push_decimal(&mut line, now_ms);
    line.append("\n");
    line
}

/// The line that sends a command.
pub fn command_line(command: &str) -> (line: String)
    ensures
        line@ == command@ + "\n"@,
{
    let mut line: String = command.to_owned();
    line.append("\n");
    line
}

/// What to tell of a response that is no consent.
pub open spec fn refusal(command: Seq<char>, response: Seq<char>) -> Option<Seq<char>> {
    if text::has_prefix(response, "ok"@) {
        None
    } else {
        Some("daemon rejected `"@ + command + "`: "@ + response)
    }
}

/// Checks that the daemon consented to a command.
pub fn check_response(command: &str, response: &str) -> (result: Result<(), String>)
    ensures
        match refusal(command@, response@) {
            None => result is Ok,
            Some(message) => result is Err && result->Err_0@ == message,
        },
{
    if text::starts_with(response, "ok") {
        Ok(())
    } else {
        let mut message: String = "daemon rejected `".to_owned();
        message.append(command);
        message.append("`: ");
        message.append(response);
        Err(message)
    }
}

/// The state of the daemon. Times that end in `_ns` are those of a clock that only goes forward,
/// in nanoseconds.
#[derive(Debug)]
pub struct DaemonState {
    /// How many windows the overview that is ready shows; nothing while none is ready.
    pub windows: Option<usize>,
    pub model_key: Vec<String>,
    pub config_key: String,
    pub config: DaemonConfig,
    /// The windows may have changed.
    pub dirty: bool,
    pub visible: bool,
    pub last_refresh_ns: u128,
    pub last_model_check_ns: u128,
    pub last_background_refresh_ns: u128,
    /// When the overview was closed last, in milliseconds.
    pub last_closed_ms: u128,
}

/// What a rebuild brings.
#[derive(Debug)]
pub struct Snapshot {
    /// How many windows the new overview shows; nothing if there is no window.
    pub windows: Option<usize>,
    pub model_key: Vec<String>,
    pub config_key: String,
    pub config: DaemonConfig,
}

/// What comes of a message.
#[derive(Debug, Clone, Copy, PartialEq, Eq, Structural)]
pub enum Order {
    Show { requested_at: u128 },
    Nothing,
    Quit,
}

/// What comes of a request to show the overview.
#[derive(Debug, Clone, Copy, PartialEq, Eq, Structural)]
pub enum ShowDecision {
    /// The request is too old, or older than the last closing.
    Skip,
    /// The overview is on screen already.
    AlreadyVisible,
    /// Nothing is ready: rebuild, and then show what there is.
    Rebuild,
    Show,
}

/// What the daemon looks after in a turn.
#[derive(Debug, Clone, Copy, PartialEq, Eq, Structural)]
pub enum TickPlan {
    /// The overview on screen.
    Overview,
    /// Nothing.
    Nothing,
    /// What is kept ready.
    Hidden,
}

/// What has to be looked at again.
#[derive(Debug, Clone, Copy, PartialEq, Eq, Structural)]
pub struct Checks {
    pub config: bool,
    pub model: bool,
}

/// What to do for the overview that is ready.
#[derive(Debug, Clone, Copy, PartialEq, Eq, Structural)]
pub struct BackgroundWork {
    /// Begin to capture the windows of the current workspace.
    pub start_capture: bool,
    /// Go on with the capture that is under way.
    pub step: bool,
}

/// At least `interval_ms` milliseconds have passed since `last_ns`.
pub open spec fn due(now_ns: u128, last_ns: u128, interval_ms: u64) -> bool {
    let elapsed = if now_ns >= last_ns {
        now_ns - last_ns
    } else {
        0
    };
    elapsed >= interval_ms * 1_000_000
}

fn is_due(now_ns: u128, last_ns: u128, interval_ms: u64) -> (result: bool)
    ensures
        result == due(now_ns, last_ns, interval_ms),
{
    let elapsed: u128 = now_ns.saturating_sub(last_ns);
    elapsed >= interval_ms as u128 * 1_000_000
}

fn same_list(left: &Vec<String>, right: &Vec<String>) -> (same: bool)
    ensures
        same == (text::views(left@) == text::views(right@)),
{
    assert(text::views(left@).len() == left@.len());
    assert(text::views(right@).len() == right@.len());
    if left.len() != right.len() {
        return false;
    }
    let mut i: usize = 0;
    while i < left.len()
        invariant
            i <= left@.len(),
            left@.len() == right@.len(),
            forall|j: int| 0 <= j < i ==> (#[trigger] left@[j])@ == right@[j]@,
        decreases left@.len() - i,
    {
        if !text::same_text(left[i].as_str(), right[i].as_str()) {
            assert(text::views(left@)[i as int] != text::views(right@)[i as int]);
            return false;
        }
        i += 1;
    }
    assert(text::views(left@) =~= text::views(right@));
    true
}

/// What comes of a message.
pub open spec fn order_for(message: DaemonMessage) -> Order {
    match message {
        DaemonMessage::Show(requested_at) => Order::Show { requested_at },
        DaemonMessage::I3Changed => Order::Nothing,
        DaemonMessage::Quit => Order::Quit,
    }
}

impl DaemonState {
    /// The daemon has just been built from a snapshot, at the time `now_ns`.
    pub open spec fn just_built(self, snapshot: Snapshot, now_ns: u128) -> bool {
        &&& self.windows == snapshot.windows
        &&& self.model_key == snapshot.model_key
        &&& self.config_key == snapshot.config_key
        &&& self.config == snapshot.config
        &&& !self.dirty
        &&& !self.visible
        &&& self.last_refresh_ns == now_ns
        &&& self.last_model_check_ns == now_ns
        &&& self.last_background_refresh_ns == now_ns
        &&& self.last_closed_ms == 0
    }

    /// What the daemon tells of itself.
    pub open spec fn spec_status(self) -> SharedStatus {
        SharedStatus {
            windows: match self.windows {
                Some(count) => count,
                None => 0,
            },
            visible: self.visible,
        }
    }

    /// After a message.
    pub open spec fn after_message(self, message: DaemonMessage) -> DaemonState {
        match message {
            DaemonMessage::I3Changed => DaemonState { dirty: true, ..self },
            DaemonMessage::Show(_) | DaemonMessage::Quit => self,
        }
    }

    /// With the overview on screen.
    pub open spec fn after_showing(self) -> DaemonState {
        DaemonState { visible: true, ..self }
    }

    /// What to look after in a turn.
    pub open spec fn plan(self) -> TickPlan {
        if !self.visible {
            TickPlan::Hidden
        } else if self.windows is Some {
            TickPlan::Overview
        } else {
            TickPlan::Nothing
        }
    }

    /// After a turn of the overview on screen.
    pub open spec fn after_tick(self, tick: AppTick, now_ms: u128) -> DaemonState {
        match tick {
            AppTick::Idle => self,
            AppTick::Closed | AppTick::Focused => {
                DaemonState { visible: false, last_closed_ms: now_ms, ..self }
            },
        }
    }

    /// What has to be looked at again.
    pub open spec fn checks_at(self, now_ns: u128) -> Checks {
        let interval = self.config.idle_refresh_ms;
        Checks {
            config: due(now_ns, self.last_refresh_ns, interval),
            model: self.dirty && due(now_ns, self.last_model_check_ns, interval),
        }
    }

    /// With what is looked at noted.
    pub open spec fn after_checks(self, now_ns: u128) -> DaemonState {
        let checks = self.checks_at(now_ns);
        DaemonState {
            last_refresh_ns: if checks.config {
                now_ns
            } else {
                self.last_refresh_ns
            },
            last_model_check_ns: if checks.model {
                now_ns
            } else {
                self.last_model_check_ns
            },
            ..self
        }
    }

    /// After what was looked at, where nothing has changed; else as it was.
    pub open spec fn after_look(
        self,
        config_key: Option<String>,
        model_key: Option<Vec<String>>,
    ) -> DaemonState {
        if self.changed(config_key, model_key) {
            self
        } else {
            DaemonState {
                dirty: self.dirty && model_key is None,
                config_key: match config_key {
                    Some(key) => key,
                    None => self.config_key,
                },
                ..self
            }
        }
    }

    /// After a rebuild: as just built, but for the last closing.
    pub open spec fn rebuilt(self, snapshot: Snapshot, now_ns: u128) -> DaemonState {
        DaemonState {
            windows: snapshot.windows,
            model_key: snapshot.model_key,
            config_key: snapshot.config_key,
            config: snapshot.config,
            dirty: false,
            visible: false,
            last_refresh_ns: now_ns,
            last_model_check_ns: now_ns,
            last_background_refresh_ns: now_ns,
            last_closed_ms: self.last_closed_ms,
        }
    }

    /// What to do for the overview that is ready.
    pub open spec fn work_at(self, now_ns: u128) -> BackgroundWork {
        BackgroundWork {
            start_capture: self.windows is Some && self.config.background_current_workspace_refresh
                && due(now_ns, self.last_background_refresh_ns, self.config.idle_refresh_ms),
            step: self.windows is Some,
        }
    }

    /// With the capture that is begun noted.
    pub open spec fn after_work(self, now_ns: u128) -> DaemonState {
        DaemonState {
            last_background_refresh_ns: if self.work_at(now_ns).start_capture {
                now_ns
            } else {
                self.last_background_refresh_ns
            },
            ..self
        }
    }

    /// A daemon that has just been built, at the time `now_ns`.
    pub fn new(snapshot: Snapshot, now_ns: u128) -> (state: DaemonState)
        ensures
            state.windows == snapshot.windows,
            state.model_key == snapshot.model_key,
            state.config_key == snapshot.config_key,
            state.config == snapshot.config,
            !state.dirty,
            !state.visible,
            state.last_refresh_ns == now_ns,
            state.last_model_check_ns == now_ns,
            state.last_background_refresh_ns == now_ns,
            state.last_closed_ms == 0,
            state.just_built(snapshot, now_ns),
    {
        DaemonState {
            windows: snapshot.windows,
            model_key: snapshot.model_key,
            config_key: snapshot.config_key,
            config: snapshot.config,
            dirty: false,
            visible: false,
            last_refresh_ns: now_ns,
            last_model_check_ns: now_ns,
            last_background_refresh_ns: now_ns,
            last_closed_ms: 0,
        }
    }

    /// How many windows the overview that is ready shows.
    pub fn window_count(&self) -> (count: usize)
        ensures
            count == (match self.windows {
                Some(count) => count,
                None => 0,
            }),
    {
        match self.windows {
            Some(count) => count,
            None => 0,
        }
    }

    /// What the daemon tells of itself.
    pub fn status(&self) -> (status: SharedStatus)
        ensures
            status.windows == (match self.windows {
                Some(count) => count,
                None => 0,
            }),
            status.visible == self.visible,
            status == self.spec_status(),
    {
        SharedStatus { windows: self.window_count(), visible: self.visible }
    }

    /// Takes in a message.
    pub fn handle_message(&mut self, message: DaemonMessage) -> (order: Order)
        ensures
            match message {
                DaemonMessage::Show(requested_at) => {
                    order == (Order::Show { requested_at }) && *final(self) == *old(self)
                },
                DaemonMessage::I3Changed => {
                    order == Order::Nothing && *final(self) == (DaemonState {
                        dirty: true,
                        ..*old(self)
                    })
                },
                DaemonMessage::Quit => order == Order::Quit && *final(self) == *old(self),
            },
            *final(self) == old(self).after_message(message),
            order == order_for(message),
    {
        match message {
            DaemonMessage::Show(requested_at) => Order::Show { requested_at },
            DaemonMessage::I3Changed => {
                self.dirty = true;
                Order::Nothing
            },
            DaemonMessage::Quit => Order::Quit,
        }
    }

    /// A request to show the overview comes too late: it was made no later than the overview was
    /// closed, or longer ago than the settings allow.
    pub open spec fn skips(self, requested_at: u128, now_ms: u128) -> bool {
        ||| requested_at <= self.last_closed_ms
        ||| now_ms - requested_at > self.config.stale_show_ms
    }

    /// Whether a request to show the overview comes too late.
    pub fn should_skip_show(&self, requested_at: u128, now_ms: u128) -> (skip: bool)
        ensures
            skip == self.skips(requested_at, now_ms),
    {
        requested_at <= self.last_closed_ms || now_ms.saturating_sub(requested_at)
            > self.config.stale_show_ms as u128
    }

    /// What comes of a request to show the overview.
    pub open spec fn decision(self, requested_at: u128, now_ms: u128) -> ShowDecision {
        if self.skips(requested_at, now_ms) {
            ShowDecision::Skip
        } else if self.visible {
            ShowDecision::AlreadyVisible
        } else if self.windows is None {
            ShowDecision::Rebuild
        } else {
            ShowDecision::Show
        }
    }

    /// What comes of a request to show the overview.
    pub fn show(&self, requested_at: u128, now_ms: u128) -> (decision: ShowDecision)
        ensures
            decision == self.decision(requested_at, now_ms),
    {
        if self.should_skip_show(requested_at, now_ms) {
            ShowDecision::Skip
        } else if self.visible {
            ShowDecision::AlreadyVisible
        } else if self.windows.is_none() {
            ShowDecision::Rebuild
        } else {
            ShowDecision::Show
        }
    }

    /// Notes that the overview is on screen.
    pub fn shown(&mut self)
        ensures
            *final(self) == (DaemonState { visible: true, ..*old(self) }),
            *final(self) == old(self).after_showing(),
    {
        self.visible = true;
    }

    /// What to look after in a turn.
    pub fn tick(&self) -> (plan: TickPlan)
        ensures
            plan == (if !self.visible {
                TickPlan::Hidden
            } else if self.windows is Some {
                TickPlan::Overview
            } else {
                TickPlan::Nothing
            }),
            plan == self.plan(),
    {
        if !self.visible {
            TickPlan::Hidden
        } else if self.windows.is_some() {
            TickPlan::Overview
        } else {
            TickPlan::Nothing
        }
    }

    /// Takes in a turn of the overview on screen, at `now_ms`.
    pub fn ticked(&mut self, tick: AppTick, now_ms: u128)
        ensures
            *final(self) == (if tick == AppTick::Idle {
                *old(self)
            } else {
                DaemonState { visible: false, last_closed_ms: now_ms, ..*old(self) }
            }),
            *final(self) == old(self).after_tick(tick, now_ms),
    {
        match tick {
            AppTick::Idle => {},
            AppTick::Closed | AppTick::Focused => {
                self.visible = false;
                self.last_closed_ms = now_ms;
            },
        }
    }

    /// What has to be looked at again at `now_ns`: the settings after each interval, and the
    /// windows too, if they may have changed. What is looked at is noted.
    pub fn due_checks(&mut self, now_ns: u128) -> (checks: Checks)
        ensures
            checks.config == due(
                now_ns,
                old(self).last_refresh_ns,
                old(self).config.idle_refresh_ms,
            ),
            checks.model == (old(self).dirty && due(
                now_ns,
                old(self).last_model_check_ns,
                old(self).config.idle_refresh_ms,
            )),
            *final(self) == (DaemonState {
                last_refresh_ns: if checks.config {
                    now_ns
                } else {
                    old(self).last_refresh_ns
                },
                last_model_check_ns: if checks.model {
                    now_ns
                } else {
                    old(self).last_model_check_ns
                },
                ..*old(self)
            }),
            checks == old(self).checks_at(now_ns),
            *final(self) == old(self).after_checks(now_ns),
    {
        let interval: u64 = self.config.idle_refresh_ms;
        let config: bool = is_due(now_ns, self.last_refresh_ns, interval);
        let model: bool = self.dirty && is_due(now_ns, self.last_model_check_ns, interval);
        if config {
            self.last_refresh_ns = now_ns;
        }
        if model {
            self.last_model_check_ns = now_ns;
        }
        Checks { config, model }
    }

    /// What was looked at has changed.
    pub open spec fn changed(
        self,
        config_key: Option<String>,
        model_key: Option<Vec<String>>,
    ) -> bool {
        ||| config_key is Some && config_key->0@ != self.config_key@
        ||| model_key is Some && text::views(model_key->0@) != text::views(self.model_key@)
    }

    /// Takes in what was looked at, and says whether everything has to be rebuilt. If not, the
    /// windows are known not to have changed, as far as they were looked at.
    pub fn refresh_hidden_state(
        &mut self,
        config_key: Option<String>,
        model_key: Option<Vec<String>>,
    ) -> (rebuild: bool)
        ensures
            rebuild == old(self).changed(config_key, model_key),
            *final(self) == (if rebuild {
                *old(self)
            } else {
                DaemonState {
                    dirty: old(self).dirty && model_key is None,
                    config_key: match config_key {
                        Some(key) => key,
                        None => old(self).config_key,
                    },
                    ..*old(self)
                }
            }),
            *final(self) == old(self).after_look(config_key, model_key),
    {
        let config_changed: bool = match &config_key {
            Some(key) => !text::same_text(key.as_str(), self.config_key.as_str()),
            None => false,
        };
        let model_changed: bool = match &model_key {
            Some(key) => !same_list(key, &self.model_key),
            None => false,
        };
        if config_changed || model_changed {
            return true;
        }
        if model_key.is_some() {
            self.dirty = false;
        }
        match config_key {
            Some(key) => {
                self.config_key = key;
            },
            None => {},
        }
        false
    }

    /// Takes in a rebuild, at `now_ns`.
    pub fn rebuild(&mut self, snapshot: Snapshot, now_ns: u128)
        ensures
            *final(self) == (DaemonState {
                windows: snapshot.windows,
                model_key: snapshot.model_key,
                config_key: snapshot.config_key,
                config: snapshot.config,
                dirty: false,
                visible: false,
                last_refresh_ns: now_ns,
                last_model_check_ns: now_ns,
                last_background_refresh_ns: now_ns,
                last_closed_ms: old(self).last_closed_ms,
            }),
            *final(self) == old(self).rebuilt(snapshot, now_ns),
    {
        self.windows = snapshot.windows;
        self.model_key = snapshot.model_key;
        self.config_key = snapshot.config_key;
        self.config = snapshot.config;
        self.dirty = false;
        self.visible = false;
        self.last_refresh_ns = now_ns;
        self.last_model_check_ns = now_ns;
        self.last_background_refresh_ns = now_ns;
    }

    /// What to do for the overview that is ready, at `now_ns`.
    pub fn background(&mut self, now_ns: u128) -> (work: BackgroundWork)
        ensures
            work.step == (old(self).windows is Some),
            work.start_capture == (old(self).windows is Some
                && old(self).config.background_current_workspace_refresh && due(
                now_ns,
                old(self).last_background_refresh_ns,
                old(self).config.idle_refresh_ms,
            )),
            *final(self) == (DaemonState {
                last_background_refresh_ns: if work.start_capture {
                    now_ns
                } else {
                    old(self).last_background_refresh_ns
                },
                ..*old(self)
            }),
            work == old(self).work_at(now_ns),
            *final(self) == old(self).after_work(now_ns),
    {
        let step: bool = self.windows.is_some();
        let start_capture: bool = step && self.config.background_current_workspace_refresh
            && is_due(now_ns, self.last_background_refresh_ns, self.config.idle_refresh_ms);
        if start_capture {
            self.last_background_refresh_ns = now_ns;
        }
        BackgroundWork { start_capture, step }
    }
}

/// Requests that were made before the overview was closed do not bring it back.
pub proof fn law_closing_outlives_earlier_requests(
    state: DaemonState,
    closed_ms: u128,
    requested_at: u128,
    now_ms: u128,
)
    requires
        requested_at <= closed_ms,
    ensures
        (DaemonState { visible: false, last_closed_ms: closed_ms, ..state }).decision(
            requested_at,
            now_ms,
        ) == ShowDecision::Skip,
{
}

/// A request that is neither late nor older than the last closing shows the overview that is
/// ready, if it is not on screen yet.
pub proof fn law_timely_request_shows_the_overview(
    state: DaemonState,
    requested_at: u128,
    now_ms: u128,
)
    requires
        requested_at > state.last_closed_ms,
        now_ms <= requested_at + state.config.stale_show_ms,
        !state.visible,
        state.windows is Some,
    ensures
        state.decision(requested_at, now_ms) == ShowDecision::Show,
{
}

/// The daemon reads the time of a request to show the overview as the client wrote it, from the
/// bytes that the client sent.
pub proof fn law_show_request_reads_back(requested_at: u128, now_ms: u128)
    ensures
        ({
            let sent = vstd::utf8::encode_utf8(show_line(requested_at as nat));
            told(text::words(received(sent)), now_ms) == Some(DaemonMessage::Show(requested_at))
        }),
        told(text::words(text::trimmed(show_line(requested_at as nat))), now_ms) == Some(
            DaemonMessage::Show(requested_at),
        ),
{
    text::law_encoded_text_reads_back(show_line(requested_at as nat));
    let digits = text::decimal(requested_at as nat);
    text::law_decimal_reads_back(requested_at as nat);
    reveal_strlit("show ");
    reveal_strlit("show");
    reveal_strlit("\n");
    let line = show_line(requested_at as nat);
    let inner = "show"@ + seq![' '] + digits;
    assert("show "@ =~= "show"@ + seq![' ']);
    assert(line =~= inner + "\n"@);
    assert(line[0] == 's');
    assert(!text::is_white_space('s'));
    assert(text::trimmed_start(line) == line);
    assert(line.last() == '\n');
    assert(text::is_white_space('\n'));
    assert(line.drop_last() =~= inner);
    assert(inner.last() == digits[digits.len() - 1]);
    assert(text::trimmed_end(inner) == inner);
    assert(text::trimmed(line) == inner);
    text::law_two_words("show"@, digits);
}

/// A request that is no later than the last closing, or that the settings call stale, is skipped;
/// of the others, one that finds the overview on screen leaves it there, one that finds none
/// ready has it rebuilt, and one that finds it ready has it shown.
pub proof fn law_every_request_is_decided(state: DaemonState, requested_at: u128, now_ms: u128)
    ensures
        state.decision(requested_at, now_ms) == ShowDecision::Skip <==> (requested_at
            <= state.last_closed_ms || now_ms > requested_at + state.config.stale_show_ms),
        state.decision(requested_at, now_ms) != ShowDecision::Skip ==> {
            &&& state.visible ==> state.decision(requested_at, now_ms)
                == ShowDecision::AlreadyVisible
            &&& !state.visible && state.windows is None ==> state.decision(requested_at, now_ms)
                == ShowDecision::Rebuild
            &&& !state.visible && state.windows is Some ==> state.decision(requested_at, now_ms)
                == ShowDecision::Show
        },
{
}

/// Something is due again once its interval has passed, and not before; a clock that stands
/// before the last time has nothing due but what has no interval.
pub proof fn law_intervals_pass(now_ns: u128, last_ns: u128, interval_ms: u64)
    ensures
        interval_ms > 0 ==> (due(now_ns, last_ns, interval_ms) <==> now_ns >= last_ns
            + interval_ms * 1_000_000),
        interval_ms == 0 ==> due(now_ns, last_ns, interval_ms),
{
}

/// The commands are `show`, `status` and `quit`. Only the first and the last tell the daemon
/// something, and only a request to show the overview looks at the second word: as its time, if
/// it is one, in milliseconds.
pub proof fn law_commands_are_answered(
    words: Seq<Seq<char>>,
    status: Option<SharedStatus>,
    now_ms: u128,
)
    ensures
        words.len() == 0 ==> told(words, now_ms) is None && told_client(words, status)
            == "error empty command\n"@,
        words.len() > 0 && words[0] == "show"@ ==> {
            &&& told_client(words, status) == "ok\n"@
            &&& words.len() == 1 ==> told(words, now_ms) == Some(DaemonMessage::Show(now_ms))
            &&& words.len() > 1 ==> match text::unsigned_value(words[1], 10) {
                Some(time) => time <= u128::MAX ==> told(words, now_ms) == Some(
                    DaemonMessage::Show(time as u128),
                ),
                None => told(words, now_ms) == Some(DaemonMessage::Show(now_ms)),
            }
        },
        words.len() > 0 && words[0] == "status"@ ==> {
            &&& told(words, now_ms) is None
            &&& status matches Some(known) ==> told_client(words, status) == "ok windows="@
                + text::decimal(known.windows as nat) + (if known.visible {
                " visible=true cache=warm\n"@
            } else {
                " visible=false cache=warm\n"@
            })
            &&& status is None ==> told_client(words, status) == "ok status=poisoned\n"@
        },
        words.len() > 0 && words[0] == "quit"@ ==> told(words, now_ms) == Some(
            DaemonMessage::Quit,
        ) && told_client(words, status) == "ok quitting\n"@,
        words.len() > 0 && words[0] != "show"@ && words[0] != "status"@ && words[0] != "quit"@
            ==> told(words, now_ms) is None && told_client(words, status)
            == "error unknown command `"@ + words[0] + "`\n"@,
{
    reveal_strlit("show");
    reveal_strlit("status");
    reveal_strlit("quit");
    assert("show"@[0] != "quit"@[0] && "show"@[1] != "status"@[1] && "status"@[0] != "quit"@[0]);
    if words.len() > 0 && words[0] == "status"@ {
        reveal_strlit("ok ");
        reveal_strlit("ok windows=");
        reveal_strlit("windows=");
        reveal_strlit(" visible=");
        reveal_strlit("true");
        reveal_strlit("false");
        reveal_strlit(" cache=warm");
        reveal_strlit("\n");
        reveal_strlit(" visible=true cache=warm\n");
        reveal_strlit(" visible=false cache=warm\n");
        reveal_strlit("status=poisoned");
        reveal_strlit("ok status=poisoned\n");
        match status {
            Some(known) => {
                let tail = if known.visible {
                    " visible=true cache=warm\n"@
                } else {
                    " visible=false cache=warm\n"@
                };
                assert(told_client(words, status) =~= "ok windows="@ + text::decimal(
                    known.windows as nat,
                ) + tail);
            },
            None => {
                assert(told_client(words, status) =~= "ok status=poisoned\n"@);
            },
        }
    }
}

/// A response that begins with `ok` is a consent, and every other is told with its command.
pub proof fn law_responses_consent_or_are_told(command: Seq<char>, rest: Seq<char>)
    ensures
        refusal(command, "ok"@ + rest) is None,
        !text::has_prefix(rest, "ok"@) ==> refusal(command, rest) == Some(
            "daemon rejected `"@ + command + "`: "@ + rest,
        ),
{
    assert(("ok"@ + rest).take("ok"@.len() as int) =~= "ok"@);
}

/// Everything is rebuilt where the settings or the windows that were looked at are not what they
/// were, and only there.
pub proof fn law_changes_are_noticed(
    state: DaemonState,
    config_key: String,
    model_key: Vec<String>,
)
    ensures
        !state.changed(None, None),
        state.changed(Some(config_key), None) <==> config_key@ != state.config_key@,
        state.changed(None, Some(model_key)) <==> (model_key@.len() != state.model_key@.len()
            || exists|i: int|
            0 <= i < model_key@.len() && (#[trigger] model_key@[i])@ != state.model_key@[i]@),
        state.changed(Some(config_key), Some(model_key)) <==> (state.changed(
            Some(config_key),
            None,
        ) || state.changed(None, Some(model_key))),
{
    let a = text::views(model_key@);
    let b = text::views(state.model_key@);
    assert(a.len() == model_key@.len() && b.len() == state.model_key@.len());
    if a == b {
        assert forall|i: int| 0 <= i < model_key@.len() implies (#[trigger] model_key@[i])@
            == state.model_key@[i]@ by {
            assert(a[i] == b[i]);
        }
    }
    if a.len() == b.len() && (forall|i: int|
        0 <= i < model_key@.len() ==> (#[trigger] model_key@[i])@ == state.model_key@[i]@) {
        assert forall|i: int| 0 <= i < a.len() implies #[trigger] a[i] == b[i] by {
            assert(model_key@[i]@ == state.model_key@[i]@);
        }
        assert(a =~= b);
    }
}

/// The directory of the socket carries the user's name where others use the directory around it
/// too, so that users do not meet there.
pub proof fn law_users_do_not_share_a_directory(first: String, second: String)
    ensures
        directory_name(true, Some(first)) == "tobyscope-x11"@,
        directory_name(true, None) == "tobyscope-x11"@,
        directory_name(false, None) == "tobyscope-x11-unknown"@,
        directory_name(false, Some(first)) == "tobyscope-x11-"@ + first@,
        first@ != second@ ==> directory_name(false, Some(first)) != directory_name(
            false,
            Some(second),
        ),
{
    reveal_strlit("tobyscope-x11");
    reveal_strlit("-");
    reveal_strlit("unknown");
    reveal_strlit("tobyscope-x11-");
    reveal_strlit("tobyscope-x11-unknown");
    assert(directory_name(false, None) =~= "tobyscope-x11-unknown"@);
    assert(directory_name(false, Some(first)) =~= "tobyscope-x11-"@ + first@);
    assert(directory_name(false, Some(second)) =~= "tobyscope-x11-"@ + second@);
    assert(directory_name(false, Some(first)).skip(14) =~= first@);
    assert(directory_name(false, Some(second)).skip(14) =~= second@);
}

/// An overview that was closed, or left for a window, is off screen, and no request from before
/// that brings it back; one that goes on stays as it is.
pub proof fn law_closing_is_remembered(
    state: DaemonState,
    tick: AppTick,
    closed_ms: u128,
    requested_at: u128,
    now_ms: u128,
)
    ensures
        tick != AppTick::Idle ==> {
            let next = state.after_tick(tick, closed_ms);
            &&& !next.visible
            &&& next.plan() == TickPlan::Hidden
            &&& !next.spec_status().visible
            &&& requested_at <= closed_ms ==> next.decision(requested_at, now_ms)
                == ShowDecision::Skip
            &&& requested_at > closed_ms && now_ms <= requested_at + state.config.stale_show_ms
                ==> next.decision(requested_at, now_ms) == (if state.windows is Some {
                ShowDecision::Show
            } else {
                ShowDecision::Rebuild
            })
        },
        state.after_tick(AppTick::Idle, closed_ms) == state,
{
}

/// An overview that was shown is on screen, where it is looked after, and a timely request finds
/// it there.
pub proof fn law_shown_overview_is_looked_after(
    state: DaemonState,
    requested_at: u128,
    now_ms: u128,
)
    ensures
        ({
            let next = state.after_showing();
            &&& next.spec_status().visible
            &&& next.spec_status().windows == state.spec_status().windows
            &&& state.windows is Some ==> next.plan() == TickPlan::Overview
            &&& state.windows is None ==> next.plan() == TickPlan::Nothing
            &&& requested_at > state.last_closed_ms && now_ms <= requested_at
                + state.config.stale_show_ms ==> next.decision(requested_at, now_ms)
                == ShowDecision::AlreadyVisible
        }),
{
}

/// The status tells how many windows the overview shows, none where there is none.
pub proof fn law_status_counts_the_windows(state: DaemonState)
    ensures
        state.windows matches Some(count) ==> state.spec_status().windows == count,
        state.windows is None ==> state.spec_status().windows == 0,
        state.spec_status().visible == state.visible,
{
}

/// What was looked at is not due again before its interval has passed, and then it is; the
/// windows are looked at only where they may have changed, and a message that they may have is
/// not lost until they are found to be what they were.
pub proof fn law_checks_come_round(state: DaemonState, now_ns: u128, later_ns: u128)
    requires
        state.config.idle_refresh_ms > 0,
    ensures
        ({
            let checks = state.checks_at(now_ns);
            let next = state.after_checks(now_ns);
            let interval = state.config.idle_refresh_ms * 1_000_000;
            &&& checks.config ==> (next.checks_at(later_ns).config <==> later_ns >= now_ns
                + interval)
            &&& checks.model ==> (next.checks_at(later_ns).model <==> later_ns >= now_ns
                + interval)
            &&& !checks.config && !checks.model ==> next == state
            &&& checks.model ==> state.dirty
            &&& next.dirty == state.dirty
            &&& state.dirty && now_ns >= state.last_model_check_ns + interval ==> checks.model
            &&& now_ns >= state.last_refresh_ns + interval ==> checks.config
        }),
{
}

/// A message that the windows may have changed has them looked at once the interval has passed;
/// no other message changes anything.
pub proof fn law_changed_windows_are_looked_at(
    state: DaemonState,
    requested_at: u128,
    now_ns: u128,
)
    requires
        now_ns >= state.last_model_check_ns + state.config.idle_refresh_ms * 1_000_000,
    ensures
        state.after_message(DaemonMessage::I3Changed).checks_at(now_ns).model,
        state.after_message(DaemonMessage::I3Changed).after_look(None, None).checks_at(
            now_ns,
        ).model,
        state.after_message(DaemonMessage::Show(requested_at)) == state,
        state.after_message(DaemonMessage::Quit) == state,
{
}

/// Windows that were looked at and are what they were need no other look until something changes;
/// what has changed is not forgotten until everything is rebuilt.
pub proof fn law_a_look_settles_what_is_unchanged(
    state: DaemonState,
    config_key: Option<String>,
    model_key: Vec<String>,
    now_ns: u128,
)
    ensures
        !state.changed(config_key, Some(model_key)) ==> {
            let next = state.after_look(config_key, Some(model_key));
            &&& !next.dirty
            &&& !next.checks_at(now_ns).model
            &&& next.model_key == state.model_key
            &&& next.config_key@ == state.config_key@
            &&& next.visible == state.visible
            &&& next.windows == state.windows
        },
        state.changed(config_key, Some(model_key)) ==> state.after_look(
            config_key,
            Some(model_key),
        ) == state,
{
}

/// A rebuilt daemon is like a new one of the same snapshot, but remembers the last closing: what
/// was looked at for the snapshot is no change to it, and nothing is due at once.
pub proof fn law_rebuilding_starts_over(
    state: DaemonState,
    built: DaemonState,
    snapshot: Snapshot,
    now_ns: u128,
    later_ns: u128,
)
    requires
        built.just_built(snapshot, now_ns),
        snapshot.config.idle_refresh_ms > 0,
        later_ns < now_ns + snapshot.config.idle_refresh_ms * 1_000_000,
    ensures
        ({
            let next = state.rebuilt(snapshot, now_ns);
            &&& next == (DaemonState { last_closed_ms: state.last_closed_ms, ..built })
            &&& !next.changed(Some(snapshot.config_key), Some(snapshot.model_key))
            &&& next.checks_at(later_ns) == (Checks { config: false, model: false })
            &&& !next.work_at(later_ns).start_capture
            &&& next.plan() == TickPlan::Hidden
            &&& next.spec_status().windows == built.spec_status().windows
        }),
{
}

/// A capture in the background begins where the settings allow it and an overview is ready, once
/// in each interval, and one that is under way goes on in every turn.
pub proof fn law_background_captures_come_round(
    state: DaemonState,
    now_ns: u128,
    later_ns: u128,
)
    requires
        state.config.idle_refresh_ms > 0,
    ensures
        ({
            let work = state.work_at(now_ns);
            let next = state.after_work(now_ns);
            let interval = state.config.idle_refresh_ms * 1_000_000;
            &&& work.step <==> state.windows is Some
            &&& work.start_capture ==> state.windows is Some
                && state.config.background_current_workspace_refresh
            &&& work.start_capture ==> (next.work_at(later_ns).start_capture <==> later_ns
                >= now_ns + interval)
            &&& !work.start_capture ==> next == state
            &&& state.windows is Some && state.config.background_current_workspace_refresh
                && now_ns >= state.last_background_refresh_ns + interval ==> work.start_capture
        }),
{
}

/// A client's line comes out as an order: the time that it writes is the time of the request, and
/// a client that asks to quit ends the daemon.
pub proof fn law_lines_become_orders(requested_at: u128, now_ms: u128)
    ensures
        ({
            let sent = vstd::utf8::encode_utf8(show_line(requested_at as nat));
            let message = told(text::words(received(sent)), now_ms);
            message is Some && order_for(message->0) == (Order::Show { requested_at })
        }),
        ({
            let message = told(seq!["quit"@], now_ms);
            message is Some && order_for(message->0) == Order::Quit
        }),
        order_for(DaemonMessage::I3Changed) == Order::Nothing,
{
    law_show_request_reads_back(requested_at, now_ms);
    law_commands_are_answered(seq!["quit"@], None, now_ms);
}

/// The daemon stops taking commands exactly where it is told to quit.
pub proof fn law_quitting_stops_the_commands(words: Seq<Seq<char>>, now_ms: u128)
    ensures
        stops(words) <==> told(words, now_ms) == Some(DaemonMessage::Quit),
        stops(words) ==> order_for(told(words, now_ms)->0) == Order::Quit,
{
    law_commands_are_answered(words, None, now_ms);
}

/// What comes over the socket is the text that was sent, without the white space around it.
pub proof fn law_sent_text_is_received(before: Seq<char>, line: Seq<char>, after: Seq<char>)
    requires
        text::all_white(before),
        text::all_white(after),
        line.len() > 0 ==> !text::is_white_space(line[0]) && !text::is_white_space(
            line[line.len() - 1],
        ),
    ensures
        received(vstd::utf8::encode_utf8(before + line + after)) == line,
{
    text::law_encoded_text_reads_back(before + line + after);
    text::law_trimming_takes_the_outer_white_space(before, line, after);
}

}
