//! Icons and colors of the listing.
pub mod colors;
pub mod icons;

use vstd::prelude::*;
use crate::theme::colors::ColorManager;
use crate::theme::icons::{extension_icons, name_icons, IconManager};

verus! {

/// The icon and color choices of a listing.
pub struct Theme {
    pub icons: IconManager,
    pub colors: ColorManager,
}

impl Theme {
    /// The theme with the default icon tables.
    pub fn new() -> (r: Self)
        ensures
            r.icons.tables() == (name_icons(), extension_icons()),
    {
        Theme { icons: IconManager::new(), colors: ColorManager::new() }
    }
}

} // verus!
