//! User preferences kept in a small on-disk settings file by the
//! surrounding application; the library owns the shape and the defaults.

use vstd::prelude::*;
use vstd::string::*;

verus! {

/// User-adjustable application preferences.
pub struct AppSettings {
    /// Process names whose presence marks a game as running.
    pub games: Vec<String>,
    /// Base address of the user's preferred search instance.
    pub searxng_url: String,
    /// Whether the application starts together with the system.
    pub launch_on_startup: bool,
}

impl Default for AppSettings {
    fn default() -> (s: AppSettings)
        ensures
            s.games@.len() == 2,
            s.games@[0]@ == "cs2.exe"@,
            s.games@[1]@ == "valorant.exe"@,
            s.searxng_url@ == "https://searx.example.com"@,
            s.launch_on_startup == true,
    {
        let mut games: Vec<String> = Vec::new();
        games.push(String::from_str("cs2.exe"));
        games.push(String::from_str("valorant.exe"));
        AppSettings {
            games,
            searxng_url: String::from_str("https://searx.example.com"),
            launch_on_startup: true,
        }
    }
}

} // verus!
