use vstd::prelude::*;

verus! {

/// An entry of the number menu under the board.
#[derive(Copy, Clone, Eq, PartialEq, Debug, Structural)]
pub enum MenuActions {
    One,
    Two,
    Three,
    Four,
    Five,
    Six,
    Seven,
    Eight,
    Nine,
    Pencil,
    Undo,
}

impl MenuActions {
    /// The code of an action: the digit for the nine number entries,
    /// 10 for the pencil toggle and 11 for undo.
    pub open spec fn spec_code(self) -> u8 {
        match self {
            MenuActions::One => 1,
            MenuActions::Two => 2,
            MenuActions::Three => 3,
            MenuActions::Four => 4,
            MenuActions::Five => 5,
            MenuActions::Six => 6,
            MenuActions::Seven => 7,
            MenuActions::Eight => 8,
            MenuActions::Nine => 9,
            MenuActions::Pencil => 10,
            MenuActions::Undo => 11,
        }
    }

    #[verifier::when_used_as_spec(spec_code)]
    pub fn code(self) -> (r: u8)
        ensures
            r == self.spec_code(),
    {
        match self {
            MenuActions::One => 1,
            MenuActions::Two => 2,
            MenuActions::Three => 3,
            MenuActions::Four => 4,
            MenuActions::Five => 5,
            MenuActions::Six => 6,
            MenuActions::Seven => 7,
            MenuActions::Eight => 8,
            MenuActions::Nine => 9,
            MenuActions::Pencil => 10,
            MenuActions::Undo => 11,
        }
    }
}

/// The number entry for a digit `1..=9`; no action for any other value.
pub fn menu_action_from_u8(value: u8) -> (r: Option<MenuActions>)
    ensures
        1 <= value <= 9 <==> r is Some,
        r matches Some(a) ==> a.code() == value,
{
    match value {
        1 => Some(MenuActions::One),
        2 => Some(MenuActions::Two),
        3 => Some(MenuActions::Three),
        4 => Some(MenuActions::Four),
        5 => Some(MenuActions::Five),
        6 => Some(MenuActions::Six),
        7 => Some(MenuActions::Seven),
        8 => Some(MenuActions::Eight),
        9 => Some(MenuActions::Nine),
        _ => None,
    }
}

/// Whether an action is one of the nine number entries.
pub fn is_menu_action_number(action: MenuActions) -> (r: bool)
    ensures
        r == (1 <= action.code() <= 9),
{
    let number = action.code();
    1 <= number && number <= 9
}

} // verus!
