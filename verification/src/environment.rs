//! What the weather can be in a climate.

use crate::combatants::same_text;
use vstd::prelude::*;

verus! {

/// The kinds of weather that occur in `climate`, in the order in which they
/// are listed. A climate that is not known has clear weather only.
pub open spec fn weather_options(climate: Seq<char>) -> Seq<Seq<char>> {
    if climate == "Tropical"@ {
        seq!["Humid"@, "Rain"@, "Clear"@, "Storm"@]
    } else if climate == "Arid"@ {
        seq!["Clear"@, "Windy"@, "Dusty"@, "Hot"@]
    } else if climate == "Temperate"@ {
        seq!["Clear"@, "Rain"@, "Cloudy"@, "Windy"@]
    } else if climate == "Continental"@ {
        seq!["Snow"@, "Overcast"@, "Clear"@, "Rain"@]
    } else if climate == "Polar"@ {
        seq!["Snow"@, "Blizzard"@, "Freezing Fog"@, "Clear"@]
    } else {
        seq!["Clear"@]
    }
}

/// Lists the kinds of weather that occur in `climate`.
pub fn get_weather_options(climate: &str) -> (options: Vec<&'static str>)
    ensures
        options@.len() == weather_options(climate@).len(),
        forall|i: int|
            0 <= i < options@.len() ==> (#[trigger] options@[i])@ == weather_options(climate@)[i],
        options@.len() >= 1,
{
    if same_text(climate, "Tropical") {
        vec!["Humid", "Rain", "Clear", "Storm"]
    } else if same_text(climate, "Arid") {
        vec!["Clear", "Windy", "Dusty", "Hot"]
    } else if same_text(climate, "Temperate") {
        vec!["Clear", "Rain", "Cloudy", "Windy"]
    } else if same_text(climate, "Continental") {
        vec!["Snow", "Overcast", "Clear", "Rain"]
    } else if same_text(climate, "Polar") {
        vec!["Snow", "Blizzard", "Freezing Fog", "Clear"]
    } else {
        vec!["Clear"]
    }
}

} // verus!
