use vstd::prelude::*;

verus! {

/// How a game is played: one human against the computer, or two humans.
#[derive(Clone, Copy, PartialEq, Eq, Structural, Debug)]
pub enum Mode {
    Solo,
    Multi,
}

/// One of the two player identities; a grid cell holds one of them or nothing.
#[derive(Clone, Copy, PartialEq, Eq, Structural, Debug)]
pub enum PlayerNb {
    P1,
    P2,
}

impl PlayerNb {
    /// The identity that is not `self`.
    pub open spec fn opponent(self) -> PlayerNb {
        match self {
            PlayerNb::P1 => PlayerNb::P2,
            PlayerNb::P2 => PlayerNb::P1,
        }
    }

    /// Returns the identity that plays after `self`.
    pub fn other(self) -> (r: PlayerNb)
        ensures
            r == self.opponent(),
            r != self,
    {
        match self {
            PlayerNb::P1 => PlayerNb::P2,
            PlayerNb::P2 => PlayerNb::P1,
        }
    }
}

/// Whether a player's moves come from a human or from the engine.
#[derive(Clone, Copy, PartialEq, Eq, Structural, Debug)]
pub enum PlayerKind {
    User,
    Computer,
}

/// A player: an identity and the kind of actor behind it.
#[derive(Clone, Copy, PartialEq, Eq, Structural, Debug)]
pub struct Player {
    pub nb: PlayerNb,
    pub kind: PlayerKind,
}

/// The setup of a game: its mode and its two players.
#[derive(Clone, Copy, PartialEq, Eq, Structural, Debug)]
pub struct Config {
    pub mode: Mode,
    pub p1: Player,
    pub p2: Player,
}

/// Whether `s` is exactly the one character `c`.
pub open spec fn is_single(s: Seq<char>, c: char) -> bool {
    s.len() == 1 && s[0] == c
}

/// Whether `token` is exactly the one character `c`.
fn token_is(token: &str, c: char) -> (r: bool)
    ensures
        r == is_single(token@, c),
{
    token.unicode_len() == 1 && token.get_char(0) == c
}

impl Config {
    /// The players of a game between two humans: `P1` and `P2`, both users.
    pub fn player_multi_mode() -> (r: (Player, Player))
        ensures
            r.0 == (Player { nb: PlayerNb::P1, kind: PlayerKind::User }),
            r.1 == (Player { nb: PlayerNb::P2, kind: PlayerKind::User }),
    {
        (
            Player { nb: PlayerNb::P1, kind: PlayerKind::User },
            Player { nb: PlayerNb::P2, kind: PlayerKind::User },
        )
    }

    /// The players of a game against the computer, given the identity that the
    /// human picked: that one is a user, the other is the computer.
    pub fn player_solo_mode(human: PlayerNb) -> (r: (Player, Player))
        ensures
            r.0.nb == PlayerNb::P1,
            r.1.nb == PlayerNb::P2,
            r.0.kind == (if human == PlayerNb::P1 { PlayerKind::User } else { PlayerKind::Computer }),
            r.1.kind == (if human == PlayerNb::P2 { PlayerKind::User } else { PlayerKind::Computer }),
    {
        match human {
            PlayerNb::P1 => (
                Player { nb: PlayerNb::P1, kind: PlayerKind::User },
                Player { nb: PlayerNb::P2, kind: PlayerKind::Computer },
            ),
            PlayerNb::P2 => (
                Player { nb: PlayerNb::P1, kind: PlayerKind::Computer },
                Player { nb: PlayerNb::P2, kind: PlayerKind::User },
            ),
        }
    }

    /// Reads a mode answer, already trimmed and lower-cased: `s` is solo,
    /// `m` is multiplayer, anything else is refused.
    pub fn parse_mode(token: &str) -> (r: Option<Mode>)
        ensures
            r == Some(Mode::Solo) <==> is_single(token@, 's'),
            r == Some(Mode::Multi) <==> is_single(token@, 'm'),
            r is None <==> !is_single(token@, 's') && !is_single(token@, 'm'),
    {
        if token_is(token, 's') {
            Some(Mode::Solo)
        } else if token_is(token, 'm') {
            Some(Mode::Multi)
        } else {
            None
        }
    }

    /// Reads which identity a human picked in a solo game, from a trimmed
    /// answer: `1` or `2`, anything else is refused.
    pub fn parse_player_choice(token: &str) -> (r: Option<PlayerNb>)
        ensures
            r == Some(PlayerNb::P1) <==> is_single(token@, '1'),
            r == Some(PlayerNb::P2) <==> is_single(token@, '2'),
            r is None <==> !is_single(token@, '1') && !is_single(token@, '2'),
    {
        if token_is(token, '1') {
            Some(PlayerNb::P1)
        } else if token_is(token, '2') {
            Some(PlayerNb::P2)
        } else {
            None
        }
    }

    /// The setup of a game in the given mode with the given players.
    pub fn new(mode: Mode, players: (Player, Player)) -> (r: Config)
        ensures
            r == (Config { mode, p1: players.0, p2: players.1 }),
    {
        Config { mode, p1: players.0, p2: players.1 }
    }
}

} // verus!
