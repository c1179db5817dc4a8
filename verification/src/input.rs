use vstd::prelude::*;

verus! {

/// A key press, as far as the game reads it.
#[derive(Clone, Copy, PartialEq, Eq, Structural, Debug)]
pub enum KeyInput {
    Char(char),
    Left,
    Right,
    Up,
    Down,
    Other,
}

/// What a key press asks of the game while a piece falls.
#[derive(Clone, Copy, PartialEq, Eq, Structural, Debug)]
pub enum Command {
    Quit,
    Turn,
    Right,
    Left,
    SoftDrop,
    HardDrop,
    Hold,
    Ignore,
}

/// What a key press asks of the game-over screen.
#[derive(Clone, Copy, PartialEq, Eq, Structural, Debug)]
pub enum GameOverChoice {
    Quit,
    Restart,
    Wait,
}

/// The key bindings: `q` quits, space turns, right arrow or `d` moves right, left arrow
/// or `a` moves left, down arrow or `s` drops one row, up arrow or `w` drops to the
/// bottom, `h` holds; every other key is ignored.
pub open spec fn command_spec(k: KeyInput) -> Command {
    match k {
        KeyInput::Char(c) => {
            if c == 'q' { Command::Quit }
            else if c == ' ' { Command::Turn }
            else if c == 'd' { Command::Right }
            else if c == 'a' { Command::Left }
            else if c == 's' { Command::SoftDrop }
            else if c == 'w' { Command::HardDrop }
            else if c == 'h' { Command::Hold }
            else { Command::Ignore }
        },
        KeyInput::Right => Command::Right,
        KeyInput::Left => Command::Left,
        KeyInput::Down => Command::SoftDrop,
        KeyInput::Up => Command::HardDrop,
        KeyInput::Other => Command::Ignore,
    }
}

/// The command that a key press gives during play.
pub fn command_for(k: KeyInput) -> (c: Command)
    ensures
        c == command_spec(k),
{
    match k {
        KeyInput::Char(c) => {
            if c == 'q' { Command::Quit }
            else if c == ' ' { Command::Turn }
            else if c == 'd' { Command::Right }
            else if c == 'a' { Command::Left }
            else if c == 's' { Command::SoftDrop }
            else if c == 'w' { Command::HardDrop }
            else if c == 'h' { Command::Hold }
            else { Command::Ignore }
        },
        KeyInput::Right => Command::Right,
        KeyInput::Left => Command::Left,
        KeyInput::Down => Command::SoftDrop,
        KeyInput::Up => Command::HardDrop,
        KeyInput::Other => Command::Ignore,
    }
}

/// On the game-over screen, `q` quits and `r` starts a new game; other keys are ignored.
pub fn game_over_choice(k: KeyInput) -> (c: GameOverChoice)
    ensures
        c == (match k {
            KeyInput::Char(ch) => if ch == 'q' { GameOverChoice::Quit } else if ch == 'r' { GameOverChoice::Restart } else { GameOverChoice::Wait },
            _ => GameOverChoice::Wait,
        }),
{
    match k {
        KeyInput::Char(ch) => if ch == 'q' { GameOverChoice::Quit } else if ch == 'r' { GameOverChoice::Restart } else { GameOverChoice::Wait },
        _ => GameOverChoice::Wait,
    }
}

} // verus!
