//! Key bindings: which action a pressed key stands for.

use vstd::prelude::*;

verus! {

/// What a key press asks for.
#[derive(Debug, Clone, Copy, PartialEq, Eq, Structural)]
pub enum KeyAction {
    Quit,
    /// Nothing.
    Nul,
}

/// The registered keys, each with its action.
pub struct KeyEventHandler {
    pub events: Vec<(char, KeyAction)>,
}

/// The action of the first binding, from `from` on, whose key is the one
/// that was pressed when its turn came; nothing where there is none.
/// `pressed` holds for each binding the key that was pressed then, if one
/// was.
pub open spec fn heard(
    events: Seq<(char, KeyAction)>,
    pressed: Seq<Option<char>>,
    from: int,
) -> KeyAction
    decreases events.len() - from,
{
    if from < 0 || from >= events.len() || from >= pressed.len() {
        KeyAction::Nul
    } else if pressed[from] == Some(events[from].0) {
        events[from].1
    } else {
        heard(events, pressed, from + 1)
    }
}

impl KeyEventHandler {
    /// A handler without bindings.
    pub fn new() -> (r: KeyEventHandler)
        ensures
            r.events@ == Seq::<(char, KeyAction)>::empty(),
    {
        KeyEventHandler { events: Vec::new() }
    }

    /// Binds `action` to `key`, after the bindings that are there.
    pub fn register(&mut self, key: char, action: KeyAction)
        ensures
            final(self).events@ == old(self).events@.push((key, action)),
    {
        self.events.push((key, action));
    }

    /// Goes through the bindings in their order. The turn of the binding
    /// at a place comes with the key in `pressed` at that place, and the
    /// first binding whose key it is gives the action.
    pub fn listen(&self, pressed: &Vec<Option<char>>) -> (r: KeyAction)
        ensures
            r == heard(self.events@, pressed@, 0),
    {
        let n = self.events.len();
        let mut i: usize = 0;
        while i < n && i < pressed.len()
            invariant
                i <= n,
                n == self.events@.len(),
                heard(self.events@, pressed@, 0) == heard(self.events@, pressed@, i as int),
            decreases n - i,
        {
            let (key, action) = self.events[i];
            match pressed[i] {
                Some(c) => {
                    if c == key {
                        return action;
                    }
                },
                None => {},
            }
            i += 1;
        }
        KeyAction::Nul
    }

    /// The action for one key press under the one binding that the player
    /// starts with: `q` quits.
    pub fn init(pressed: Option<char>) -> (r: KeyAction)
        ensures
            r == if pressed == Some('q') {
                KeyAction::Quit
            } else {
                KeyAction::Nul
            },
    {
        let mut handler = KeyEventHandler::new();
        handler.register('q', KeyAction::Quit);
        let mut keys: Vec<Option<char>> = Vec::new();
        keys.push(pressed);
        proof {
            let events = handler.events@;
            assert(events[0] == ('q', KeyAction::Quit));
            assert(heard(events, keys@, 1) == KeyAction::Nul);
        }
        handler.listen(&keys)
    }
}

/// The views of the player.
#[derive(Debug, Clone, Copy, PartialEq, Eq, Structural)]
pub enum NavigationRoute {
    Playback,
    LibraryTree,
    Config,
    Help,
}

impl Default for NavigationRoute {
    fn default() -> (r: NavigationRoute)
        ensures
            r == NavigationRoute::Playback,
    {
        NavigationRoute::Playback
    }
}

/// How key presses are read.
#[derive(Debug, Clone, PartialEq, Eq)]
pub enum KeyMode {
    /// Each key stands for itself.
    Normal,
    /// A command of several keys has begun with these.
    Multi(Vec<char>),
    /// Keys are text.
    Editing,
}

/// What a key press asks the player to do.
#[derive(Debug, Clone, Copy, PartialEq, Eq, Structural)]
pub enum KeyCommand {
    Exit,
    UpdateLib { hard: bool },
    CycleRepeat,
    ToggleShuffle,
    Navigate(NavigationRoute),
    ToggleRightSidebar,
    ToggleLeftSidebar,
    VolumeUp,
    VolumeDown,
    SelectPrevTrack,
    SelectNextTrack,
    SelectFirstTrack,
    SelectLastTrack,
    PauseUnpause,
    Play,
}

/// What a key asks for in every view, in normal mode. A rescan is asked
/// for only while none is under way.
pub open spec fn universal_command(key: char, loading: bool) -> Option<KeyCommand> {
    if key == 'q' {
        Some(KeyCommand::Exit)
    } else if key == 'u' || key == 'U' {
        if loading {
            None
        } else {
            Some(KeyCommand::UpdateLib { hard: key == 'U' })
        }
    } else if key == 'r' {
        Some(KeyCommand::CycleRepeat)
    } else if key == 'z' {
        Some(KeyCommand::ToggleShuffle)
    } else if key == '1' {
        Some(KeyCommand::Navigate(NavigationRoute::Playback))
    } else if key == '2' {
        Some(KeyCommand::Navigate(NavigationRoute::LibraryTree))
    } else if key == '3' {
        Some(KeyCommand::Navigate(NavigationRoute::Config))
    } else if key == '4' {
        Some(KeyCommand::Navigate(NavigationRoute::Help))
    } else if key == 'i' {
        Some(KeyCommand::ToggleRightSidebar)
    } else if key == '+' {
        Some(KeyCommand::VolumeUp)
    } else if key == '-' || key == '=' {
        Some(KeyCommand::VolumeDown)
    } else {
        None
    }
}

/// What a key asks for in the playback view, in normal mode.
pub open spec fn playback_command(key: char) -> Option<KeyCommand> {
    if key == 'l' {
        Some(KeyCommand::SelectPrevTrack)
    } else if key == 'n' {
        Some(KeyCommand::SelectNextTrack)
    } else if key == 'I' {
        Some(KeyCommand::ToggleLeftSidebar)
    } else if key == 'G' {
        Some(KeyCommand::SelectLastTrack)
    } else if key == 'p' {
        Some(KeyCommand::PauseUnpause)
    } else if key == 'o' {
        Some(KeyCommand::Play)
    } else {
        None
    }
}

/// The commands that are there, in their order.
pub open spec fn commands(first: Option<KeyCommand>, second: Option<KeyCommand>) -> Seq<KeyCommand> {
    (match first {
        Some(c) => seq![c],
        None => Seq::empty(),
    }) + (match second {
        Some(c) => seq![c],
        None => Seq::empty(),
    })
}

/// Whether a command of several keys has begun with `g`.
pub open spec fn begun_with_g(mode: KeyMode) -> bool {
    mode matches KeyMode::Multi(keys) && keys@.len() > 0 && keys@[0] == 'g'
}

/// Whether the mode after a key press is the normal one. In the playback
/// view `g` begins a command of two keys, and the key after it ends it,
/// unless that is a `g` after a beginning that was none. Everywhere else
/// the mode stays.
pub open spec fn normal_after(route: NavigationRoute, mode: KeyMode, key: char) -> bool {
    if route == NavigationRoute::Playback {
        match mode {
            KeyMode::Normal => key != 'g',
            KeyMode::Multi(_) => key != 'g' || begun_with_g(mode),
            KeyMode::Editing => false,
        }
    } else {
        mode is Normal
    }
}

/// What a key press asks for: in the playback view first what the view
/// binds to the key, or the first track for the second `g`; then, if the
/// mode is the normal one by then, what every view binds to the key.
pub open spec fn key_commands(
    route: NavigationRoute,
    mode: KeyMode,
    key: char,
    loading: bool,
) -> Seq<KeyCommand> {
    let of_view = if route == NavigationRoute::Playback {
        match mode {
            KeyMode::Normal => playback_command(key),
            KeyMode::Multi(_) => if key == 'g' && begun_with_g(mode) {
                Some(KeyCommand::SelectFirstTrack)
            } else {
                None
            },
            KeyMode::Editing => None,
        }
    } else {
        None
    };
    let of_all = if normal_after(route, mode, key) {
        universal_command(key, loading)
    } else {
        None
    };
    commands(of_view, of_all)
}

fn universal(key: char, loading: bool) -> (r: Option<KeyCommand>)
    ensures
        r == universal_command(key, loading),
{
    if key == 'q' {
        Some(KeyCommand::Exit)
    } else if key == 'u' || key == 'U' {
        if loading {
            None
        } else {
            Some(KeyCommand::UpdateLib { hard: key == 'U' })
        }
    } else if key == 'r' {
        Some(KeyCommand::CycleRepeat)
    } else if key == 'z' {
        Some(KeyCommand::ToggleShuffle)
    } else if key == '1' {
        Some(KeyCommand::Navigate(NavigationRoute::Playback))
    } else if key == '2' {
        Some(KeyCommand::Navigate(NavigationRoute::LibraryTree))
    } else if key == '3' {
        Some(KeyCommand::Navigate(NavigationRoute::Config))
    } else if key == '4' {
        Some(KeyCommand::Navigate(NavigationRoute::Help))
    } else if key == 'i' {
        Some(KeyCommand::ToggleRightSidebar)
    } else if key == '+' {
        Some(KeyCommand::VolumeUp)
    } else if key == '-' || key == '=' {
        Some(KeyCommand::VolumeDown)
    } else {
        None
    }
}

fn playback(key: char) -> (r: Option<KeyCommand>)
    ensures
        r == playback_command(key),
{
    if key == 'l' {
        Some(KeyCommand::SelectPrevTrack)
    } else if key == 'n' {
        Some(KeyCommand::SelectNextTrack)
    } else if key == 'I' {
        Some(KeyCommand::ToggleLeftSidebar)
    } else if key == 'G' {
        Some(KeyCommand::SelectLastTrack)
    } else if key == 'p' {
        Some(KeyCommand::PauseUnpause)
    } else if key == 'o' {
        Some(KeyCommand::Play)
    } else {
        None
    }
}

/// Takes in one key press: changes the mode, and gives what the key asks
/// for. `loading` says whether a rescan is under way.
pub fn handle_key_events(
    route: NavigationRoute,
    mode: &mut KeyMode,
    key: char,
    loading: bool,
) -> (r: Vec<KeyCommand>)
    ensures
        r@ == key_commands(route, *old(mode), key, loading),
        if normal_after(route, *old(mode), key) {
            *final(mode) is Normal
        } else if *old(mode) is Normal {
            *final(mode) matches KeyMode::Multi(keys) && keys@ == seq!['g']
        } else {
            *final(mode) == *old(mode)
        },
{
    let mut out: Vec<KeyCommand> = Vec::new();
    let mut of_view: Option<KeyCommand> = None;
    if let NavigationRoute::Playback = route {
        let mut next: Option<KeyMode> = None;
        match mode {
            KeyMode::Normal => {
                if key == 'g' {
                    let mut keys: Vec<char> = Vec::new();
                    keys.push('g');
                    next = Some(KeyMode::Multi(keys));
                } else {
                    of_view = playback(key);
                }
            },
            KeyMode::Multi(keys) => {
                if key == 'g' {
                    if keys.len() > 0 && keys[0] == 'g' {
                        of_view = Some(KeyCommand::SelectFirstTrack);
                        next = Some(KeyMode::Normal);
                    }
                } else {
                    next = Some(KeyMode::Normal);
                }
            },
            KeyMode::Editing => {},
        }
        match next {
            Some(m) => {
                *mode = m;
            },
            None => {},
        }
    }
    let of_all = match mode {
        KeyMode::Normal => universal(key, loading),
        _ => None,
    };
    match of_view {
        Some(c) => {
            out.push(c);
        },
        None => {},
    }
    match of_all {
        Some(c) => {
            out.push(c);
        },
        None => {},
    }
    assert(out@ =~= key_commands(route, *old(mode), key, loading));
    out
}

} // verus!
