//! Bloatware inventory: the fixed list of removable packages, matching an
//! installed-package inventory against it, and the decisions around a
//! removal request.
//!
//! Running PowerShell is I/O and happens outside the library; the
//! inventory it returns and the outcome of each removal are handed to the
//! functions here.
use vstd::prelude::*;
use crate::text::{append_chars, append_str, chars_of, contains_seq, eq_ic, lines, lines_vec, owned, str_contains, str_eq_ignore_case, string_of, substring, trim, trim_range};

verus! {

/// One package of the bloatware list and whether it is installed.
pub struct BloatwareApp {
    pub package_name: String,
    pub display_name: String,
    pub publisher: String,
    pub category: String,
    pub installed: bool,
}

/// The bloatware list against the machine's inventory.
pub struct BloatwareReport {
    pub complete: bool,
    pub error: Option<String>,
    pub apps: Vec<BloatwareApp>,
}

/// What a removal request came to.
pub struct RemoveResult {
    pub package_name: String,
    pub success: bool,
    pub message: String,
}

/// Number of packages on the bloatware list.
pub const BLOATWARE_LEN: usize = 52;

/// Entry `i` of the bloatware list: package name, display name, category.
pub open spec fn bloat_entry(i: int) -> (Seq<char>, Seq<char>, Seq<char>) {
    if i == 0 {
        ("Microsoft.BingWeather"@, "MSN Weather"@, "games_and_ads"@)
    } else if i == 1 {
        ("Microsoft.GamingApp"@, "Xbox"@, "games_and_ads"@)
    } else if i == 2 {
        ("Microsoft.XboxApp"@, "Xbox Console Companion"@, "games_and_ads"@)
    } else if i == 3 {
        ("Microsoft.XboxGameOverlay"@, "Xbox Game Bar"@, "games_and_ads"@)
    } else if i == 4 {
        ("Microsoft.XboxGamingOverlay"@, "Xbox Game Bar"@, "games_and_ads"@)
    } else if i == 5 {
        ("Microsoft.XboxIdentityProvider"@, "Xbox Identity Provider"@, "games_and_ads"@)
    } else if i == 6 {
        ("Microsoft.XboxSpeechToTextOverlay"@, "Xbox Speech To Text"@, "games_and_ads"@)
    } else if i == 7 {
        ("king.com.CandyCrushSaga"@, "Candy Crush Saga"@, "games_and_ads"@)
    } else if i == 8 {
        ("king.com.CandyCrushSodaSaga"@, "Candy Crush Soda Saga"@, "games_and_ads"@)
    } else if i == 9 {
        ("Microsoft.MicrosoftSolitaireCollection"@, "Solitaire Collection"@, "games_and_ads"@)
    } else if i == 10 {
        ("SpotifyAB.SpotifyMusic"@, "Spotify"@, "games_and_ads"@)
    } else if i == 11 {
        ("Disney.37853FC22B2CE"@, "Disney+"@, "games_and_ads"@)
    } else if i == 12 {
        ("BytedancePte.Ltd.TikTok"@, "TikTok"@, "games_and_ads"@)
    } else if i == 13 {
        ("Facebook.Facebook"@, "Facebook"@, "games_and_ads"@)
    } else if i == 14 {
        ("Facebook.Instagram"@, "Instagram"@, "games_and_ads"@)
    } else if i == 15 {
        ("FACEBOOK.317180B0BB486"@, "Messenger"@, "games_and_ads"@)
    } else if i == 16 {
        ("Clipchamp.Clipchamp"@, "Clipchamp"@, "games_and_ads"@)
    } else if i == 17 {
        ("Microsoft.People"@, "People"@, "communication"@)
    } else if i == 18 {
        ("microsoft.windowscommunicationsapps"@, "Mail and Calendar"@, "communication"@)
    } else if i == 19 {
        ("Microsoft.SkypeApp"@, "Skype"@, "communication"@)
    } else if i == 20 {
        ("Microsoft.YourPhone"@, "Phone Link"@, "communication"@)
    } else if i == 21 {
        ("MicrosoftTeams"@, "Microsoft Teams (personal)"@, "communication"@)
    } else if i == 22 {
        ("MSTeams"@, "Microsoft Teams (new)"@, "communication"@)
    } else if i == 23 {
        ("Microsoft.ZuneMusic"@, "Groove Music"@, "media"@)
    } else if i == 24 {
        ("Microsoft.ZuneVideo"@, "Movies & TV"@, "media"@)
    } else if i == 25 {
        ("Microsoft.MixedReality.Portal"@, "Mixed Reality Portal"@, "media"@)
    } else if i == 26 {
        ("Microsoft.3DBuilder"@, "3D Builder"@, "media"@)
    } else if i == 27 {
        ("Microsoft.Microsoft3DViewer"@, "3D Viewer"@, "media"@)
    } else if i == 28 {
        ("Microsoft.Print3D"@, "Print 3D"@, "media"@)
    } else if i == 29 {
        ("Microsoft.BingNews"@, "MSN News"@, "utilities"@)
    } else if i == 30 {
        ("Microsoft.BingFinance"@, "MSN Money"@, "utilities"@)
    } else if i == 31 {
        ("Microsoft.BingSports"@, "MSN Sports"@, "utilities"@)
    } else if i == 32 {
        ("Microsoft.BingTravel"@, "MSN Travel"@, "utilities"@)
    } else if i == 33 {
        ("Microsoft.BingHealthAndFitness"@, "MSN Health"@, "utilities"@)
    } else if i == 34 {
        ("Microsoft.BingFoodAndDrink"@, "MSN Food"@, "utilities"@)
    } else if i == 35 {
        ("Microsoft.GetHelp"@, "Get Help"@, "utilities"@)
    } else if i == 36 {
        ("Microsoft.Getstarted"@, "Tips"@, "utilities"@)
    } else if i == 37 {
        ("Microsoft.WindowsFeedbackHub"@, "Feedback Hub"@, "utilities"@)
    } else if i == 38 {
        ("Microsoft.WindowsMaps"@, "Maps"@, "utilities"@)
    } else if i == 39 {
        ("Microsoft.MicrosoftOfficeHub"@, "Office Hub"@, "utilities"@)
    } else if i == 40 {
        ("Microsoft.MicrosoftStickyNotes"@, "Sticky Notes"@, "utilities"@)
    } else if i == 41 {
        ("Microsoft.OneConnect"@, "Paid Wi-Fi & Cellular"@, "utilities"@)
    } else if i == 42 {
        ("Microsoft.Wallet"@, "Microsoft Pay"@, "utilities"@)
    } else if i == 43 {
        ("Microsoft.PowerAutomateDesktop"@, "Power Automate"@, "utilities"@)
    } else if i == 44 {
        ("Microsoft.Todos"@, "Microsoft To Do"@, "utilities"@)
    } else if i == 45 {
        ("MicrosoftCorporationII.QuickAssist"@, "Quick Assist"@, "utilities"@)
    } else if i == 46 {
        ("DellInc.DellSupportAssistforPCs"@, "Dell SupportAssist"@, "oem"@)
    } else if i == 47 {
        ("E046963F.LenovoCompanion"@, "Lenovo Vantage"@, "oem"@)
    } else if i == 48 {
        ("AcerIncorporated.AcerCare"@, "Acer Care Center"@, "oem"@)
    } else if i == 49 {
        ("HPInc.HPSupportAssistant"@, "HP Support Assistant"@, "oem"@)
    } else if i == 50 {
        ("McAfee.McAfeeSecurityAdvisorWin10"@, "McAfee"@, "oem"@)
    } else {
        ("NortonLifeLock.NortonSecurity"@, "Norton Security"@, "oem"@)
    }
}

/// Entry `i` of the bloatware list: package name, display name, category.
pub fn bloatware_entry(i: usize) -> (r: (&'static str, &'static str, &'static str))
    requires
        i < BLOATWARE_LEN,
    ensures
        (r.0@, r.1@, r.2@) == bloat_entry(i as int),
{
    match i {
        0 => ("Microsoft.BingWeather", "MSN Weather", "games_and_ads"),
        1 => ("Microsoft.GamingApp", "Xbox", "games_and_ads"),
        2 => ("Microsoft.XboxApp", "Xbox Console Companion", "games_and_ads"),
        3 => ("Microsoft.XboxGameOverlay", "Xbox Game Bar", "games_and_ads"),
        4 => ("Microsoft.XboxGamingOverlay", "Xbox Game Bar", "games_and_ads"),
        5 => ("Microsoft.XboxIdentityProvider", "Xbox Identity Provider", "games_and_ads"),
        6 => ("Microsoft.XboxSpeechToTextOverlay", "Xbox Speech To Text", "games_and_ads"),
        7 => ("king.com.CandyCrushSaga", "Candy Crush Saga", "games_and_ads"),
        8 => ("king.com.CandyCrushSodaSaga", "Candy Crush Soda Saga", "games_and_ads"),
        9 => ("Microsoft.MicrosoftSolitaireCollection", "Solitaire Collection", "games_and_ads"),
        10 => ("SpotifyAB.SpotifyMusic", "Spotify", "games_and_ads"),
        11 => ("Disney.37853FC22B2CE", "Disney+", "games_and_ads"),
        12 => ("BytedancePte.Ltd.TikTok", "TikTok", "games_and_ads"),
        13 => ("Facebook.Facebook", "Facebook", "games_and_ads"),
        14 => ("Facebook.Instagram", "Instagram", "games_and_ads"),
        15 => ("FACEBOOK.317180B0BB486", "Messenger", "games_and_ads"),
        16 => ("Clipchamp.Clipchamp", "Clipchamp", "games_and_ads"),
        17 => ("Microsoft.People", "People", "communication"),
        18 => ("microsoft.windowscommunicationsapps", "Mail and Calendar", "communication"),
        19 => ("Microsoft.SkypeApp", "Skype", "communication"),
        20 => ("Microsoft.YourPhone", "Phone Link", "communication"),
        21 => ("MicrosoftTeams", "Microsoft Teams (personal)", "communication"),
        22 => ("MSTeams", "Microsoft Teams (new)", "communication"),
        23 => ("Microsoft.ZuneMusic", "Groove Music", "media"),
        24 => ("Microsoft.ZuneVideo", "Movies & TV", "media"),
        25 => ("Microsoft.MixedReality.Portal", "Mixed Reality Portal", "media"),
        26 => ("Microsoft.3DBuilder", "3D Builder", "media"),
        27 => ("Microsoft.Microsoft3DViewer", "3D Viewer", "media"),
        28 => ("Microsoft.Print3D", "Print 3D", "media"),
        29 => ("Microsoft.BingNews", "MSN News", "utilities"),
        30 => ("Microsoft.BingFinance", "MSN Money", "utilities"),
        31 => ("Microsoft.BingSports", "MSN Sports", "utilities"),
        32 => ("Microsoft.BingTravel", "MSN Travel", "utilities"),
        33 => ("Microsoft.BingHealthAndFitness", "MSN Health", "utilities"),
        34 => ("Microsoft.BingFoodAndDrink", "MSN Food", "utilities"),
        35 => ("Microsoft.GetHelp", "Get Help", "utilities"),
        36 => ("Microsoft.Getstarted", "Tips", "utilities"),
        37 => ("Microsoft.WindowsFeedbackHub", "Feedback Hub", "utilities"),
        38 => ("Microsoft.WindowsMaps", "Maps", "utilities"),
        39 => ("Microsoft.MicrosoftOfficeHub", "Office Hub", "utilities"),
        40 => ("Microsoft.MicrosoftStickyNotes", "Sticky Notes", "utilities"),
        41 => ("Microsoft.OneConnect", "Paid Wi-Fi & Cellular", "utilities"),
        42 => ("Microsoft.Wallet", "Microsoft Pay", "utilities"),
        43 => ("Microsoft.PowerAutomateDesktop", "Power Automate", "utilities"),
        44 => ("Microsoft.Todos", "Microsoft To Do", "utilities"),
        45 => ("MicrosoftCorporationII.QuickAssist", "Quick Assist", "utilities"),
        46 => ("DellInc.DellSupportAssistforPCs", "Dell SupportAssist", "oem"),
        47 => ("E046963F.LenovoCompanion", "Lenovo Vantage", "oem"),
        48 => ("AcerIncorporated.AcerCare", "Acer Care Center", "oem"),
        49 => ("HPInc.HPSupportAssistant", "HP Support Assistant", "oem"),
        50 => ("McAfee.McAfeeSecurityAdvisorWin10", "McAfee", "oem"),
        _ => ("NortonLifeLock.NortonSecurity", "Norton Security", "oem"),
    }
}

/// Whether some name of `installed` equals `approved` up to ASCII case.
pub open spec fn installed_spec(installed: Seq<String>, approved: Seq<char>) -> bool {
    exists|i: int| 0 <= i < installed.len() && eq_ic(#[trigger] installed[i]@, approved)
}

/// Whether `approved` is in the inventory `installed`: equal names up to
/// ASCII case, never a part of a longer name.
pub fn package_is_installed(installed: &[String], approved: &str) -> (r: bool)
    ensures
        r == installed_spec(installed@, approved@),
{
    let mut i: usize = 0;
    while i < installed.len()
        invariant
            i <= installed@.len(),
            forall|k: int| 0 <= k < i ==> !eq_ic(#[trigger] installed@[k]@, approved@),
        decreases installed.len() - i,
    {
        if str_eq_ignore_case(installed[i].as_str(), approved) {
            return true;
        }
        i = i + 1;
    }
    false
}

/// The app for entry `i` of the list.
fn app_of(i: usize, installed: bool) -> (r: BloatwareApp)
    requires
        i < BLOATWARE_LEN,
    ensures
        app_is(r, i as int, installed),
{
    let (pkg, name, cat) = bloatware_entry(i);
    BloatwareApp {
        package_name: owned(pkg),
        display_name: owned(name),
        publisher: String::new(),
        category: owned(cat),
        installed,
    }
}

/// `a` is entry `i` of the list, with no publisher and the given state.
pub open spec fn app_is(a: BloatwareApp, i: int, installed: bool) -> bool {
    &&& a.package_name@ == bloat_entry(i).0
    &&& a.display_name@ == bloat_entry(i).1
    &&& a.publisher@ == Seq::<char>::empty()
    &&& a.category@ == bloat_entry(i).2
    &&& a.installed == installed
}

/// The whole list in order; entry `i` is marked installed as `state(i)`.
pub open spec fn apps_are(apps: Seq<BloatwareApp>, state: spec_fn(int) -> bool) -> bool {
    &&& apps.len() == BLOATWARE_LEN
    &&& forall|i: int| 0 <= i < BLOATWARE_LEN ==> app_is(#[trigger] apps[i], i, state(i))
}

/// The list marked against the inventory `installed`.
pub fn inventory_report(installed: &[String]) -> (r: BloatwareReport)
    ensures
        r.complete,
        r.error is None,
        apps_are(r.apps@, |i: int| installed_spec(installed@, bloat_entry(i).0)),
{
    let mut apps: Vec<BloatwareApp> = Vec::new();
    let mut i: usize = 0;
    while i < BLOATWARE_LEN
        invariant
            i <= BLOATWARE_LEN,
            apps@.len() == i,
            forall|k: int|
                0 <= k < i ==> app_is(
                    #[trigger] apps@[k],
                    k,
                    installed_spec(installed@, bloat_entry(k).0),
                ),
        decreases BLOATWARE_LEN - i,
    {
        let (pkg, _, _) = bloatware_entry(i);
        let present = package_is_installed(installed, pkg);
        apps.push(app_of(i, present));
        i = i + 1;
    }
    BloatwareReport { complete: true, error: None, apps }
}

/// The report when the inventory could not be read: the list with nothing
/// marked installed, and the error.
pub fn failed_report(error: String) -> (r: BloatwareReport)
    ensures
        !r.complete,
        r.error == Some(error),
        apps_are(r.apps@, |i: int| false),
{
    let mut apps: Vec<BloatwareApp> = Vec::new();
    let mut i: usize = 0;
    while i < BLOATWARE_LEN
        invariant
            i <= BLOATWARE_LEN,
            apps@.len() == i,
            forall|k: int| 0 <= k < i ==> app_is(#[trigger] apps@[k], k, false),
        decreases BLOATWARE_LEN - i,
    {
        apps.push(app_of(i, false));
        i = i + 1;
    }
    BloatwareReport { complete: false, error: Some(error), apps }
}

/// The error of a failed inventory query: its trimmed error output, or a
/// fixed message when there is none.
pub fn inventory_failure_detail(stderr: &str) -> (r: String)
    ensures
        r@ == (if trim(stderr@).len() == 0 {
            "AppX inventory query failed"@
        } else {
            trim(stderr@)
        }),
{
    let v = chars_of(stderr);
    let (a, b) = trim_range(v.as_slice());
    if a == b {
        owned("AppX inventory query failed")
    } else {
        substring(v.as_slice(), a, b)
    }
}

/// What `scan_installed` gives where no AppX inventory can be read: the
/// list with its first fifteen entries marked installed.
pub fn scan_installed() -> (r: BloatwareReport)
    ensures
        r.complete,
        r.error is None,
        apps_are(r.apps@, |i: int| i < 15),
{
    let mut apps: Vec<BloatwareApp> = Vec::new();
    let mut i: usize = 0;
    while i < BLOATWARE_LEN
        invariant
            i <= BLOATWARE_LEN,
            apps@.len() == i,
            forall|k: int| 0 <= k < i ==> app_is(#[trigger] apps@[k], k, k < 15),
        decreases BLOATWARE_LEN - i,
    {
        apps.push(app_of(i, i < 15));
        i = i + 1;
    }
    BloatwareReport { complete: true, error: None, apps }
}

// ---------------------------------------------------------------------------
// Removal
// ---------------------------------------------------------------------------

/// The first entry of the list whose package name equals `pkg` up to ASCII
/// case.
pub open spec fn approved_index(pkg: Seq<char>, i: int) -> bool {
    &&& 0 <= i < BLOATWARE_LEN
    &&& eq_ic(bloat_entry(i).0, pkg)
    &&& forall|k: int| 0 <= k < i ==> !eq_ic(#[trigger] bloat_entry(k).0, pkg)
}

/// Which entry of the list a removal request names, if any.
pub fn approved_package(pkg: &str) -> (r: Option<usize>)
    ensures
        r matches Some(i) ==> approved_index(pkg@, i as int),
        r is None ==> forall|k: int| 0 <= k < BLOATWARE_LEN ==> !eq_ic(#[trigger] bloat_entry(k).0, pkg@),
{
    let mut i: usize = 0;
    while i < BLOATWARE_LEN
        invariant
            i <= BLOATWARE_LEN,
            forall|k: int| 0 <= k < i ==> !eq_ic(#[trigger] bloat_entry(k).0, pkg@),
        decreases BLOATWARE_LEN - i,
    {
        let (name, _, _) = bloatware_entry(i);
        if str_eq_ignore_case(name, pkg) {
            return Some(i);
        }
        i = i + 1;
    }
    None
}

/// Every `'` doubled, as a PowerShell single-quoted string needs.
pub open spec fn escape_quotes(s: Seq<char>) -> Seq<char>
    decreases s.len(),
{
    if s.len() == 0 {
        s
    } else if s.last() == '\'' {
        escape_quotes(s.drop_last()) + seq!['\'', '\'']
    } else {
        escape_quotes(s.drop_last()).push(s.last())
    }
}

pub open spec fn removal_script_spec(name: Seq<char>) -> Seq<char> {
    "$ErrorActionPreference='Stop'; Get-AppxPackage -AllUsers | Where-Object { $_.Name -eq '"@ + name + "' } | Remove-AppxPackage -AllUsers -ErrorAction Stop; Get-AppxProvisionedPackage -Online | Where-Object { $_.DisplayName -eq '"@ + name + "' } | Remove-AppxProvisionedPackage -Online -ErrorAction Stop | Out-Null; if (Get-AppxPackage -AllUsers | Where-Object { $_.Name -eq '"@ + name + "' }) { throw 'Installed package is still present' }; if (Get-AppxProvisionedPackage -Online | Where-Object { $_.DisplayName -eq '"@ + name + "' }) { throw 'Provisioned package is still present' }"@
}

/// The PowerShell script that removes package `approved` for all users and
/// from the provisioned image, then checks that neither is left.
pub fn removal_script(approved: &str) -> (r: String)
    ensures
        r@ == removal_script_spec(escape_quotes(approved@)),
{
    let v = chars_of(approved);
    let mut e: Vec<char> = Vec::new();
    let mut i: usize = 0;
    while i < v.len()
        invariant
            i <= v@.len(),
            v@ == approved@,
            e@ == escape_quotes(v@.take(i as int)),
        decreases v.len() - i,
    {
        proof {
            assert(v@.take(i + 1).drop_last() =~= v@.take(i as int));
        }
        if v[i] == '\'' {
            e.push('\'');
            e.push('\'');
            proof {
                assert(e@ =~= escape_quotes(v@.take(i as int)) + seq!['\'', '\'']);
            }
        } else {
            e.push(v[i]);
        }
        i = i + 1;
    }
    proof {
        assert(v@.take(v@.len() as int) =~= v@);
    }
    let mut s: Vec<char> = Vec::new();
    append_str(&mut s, "$ErrorActionPreference='Stop'; Get-AppxPackage -AllUsers | Where-Object { $_.Name -eq '");
    append_chars(&mut s, e.as_slice());
    append_str(&mut s, "' } | Remove-AppxPackage -AllUsers -ErrorAction Stop; Get-AppxProvisionedPackage -Online | Where-Object { $_.DisplayName -eq '");
    append_chars(&mut s, e.as_slice());
    append_str(&mut s, "' } | Remove-AppxProvisionedPackage -Online -ErrorAction Stop | Out-Null; if (Get-AppxPackage -AllUsers | Where-Object { $_.Name -eq '");
    append_chars(&mut s, e.as_slice());
    append_str(&mut s, "' }) { throw 'Installed package is still present' }; if (Get-AppxProvisionedPackage -Online | Where-Object { $_.DisplayName -eq '");
    append_chars(&mut s, e.as_slice());
    append_str(&mut s, "' }) { throw 'Provisioned package is still present' }");
    string_of(s.as_slice())
}

/// The answer to a request for a package that is not on the list.
pub fn refused_removal(pkg: &str) -> (r: RemoveResult)
    ensures
        r.package_name@ == pkg@,
        !r.success,
        r.message@ == "Refused: package was not issued by the bloatware inventory."@,
{
    RemoveResult {
        package_name: owned(pkg),
        success: false,
        message: owned("Refused: package was not issued by the bloatware inventory."),
    }
}

/// The answer when the removal script could not be started.
pub fn removal_launch_failure(pkg: &str, error: &str) -> (r: RemoveResult)
    ensures
        r.package_name@ == pkg@,
        !r.success,
        r.message@ == error@,
{
    RemoveResult { package_name: owned(pkg), success: false, message: owned(error) }
}

pub open spec fn removal_outcome_spec(succeeded: bool, stderr: Seq<char>) -> (bool, Seq<char>) {
    if succeeded {
        (true, "Removed"@)
    } else if contains_seq(stderr, "not found"@) || contains_seq(stderr, "does not exist"@) {
        (true, "Already removed"@)
    } else if lines(stderr).len() > 0 {
        (false, lines(stderr)[0])
    } else {
        (false, "Unknown error"@)
    }
}

/// The answer from the removal script's exit status and error output: a
/// package that was already gone counts as removed; otherwise the first
/// line of the error output is the message.
pub fn removal_result(pkg: &str, succeeded: bool, stderr: &str) -> (r: RemoveResult)
    ensures
        r.package_name@ == pkg@,
        (r.success, r.message@) == removal_outcome_spec(succeeded, stderr@),
{
    if succeeded {
        return RemoveResult { package_name: owned(pkg), success: true, message: owned("Removed") };
    }
    if str_contains(stderr, "not found") || str_contains(stderr, "does not exist") {
        return RemoveResult {
            package_name: owned(pkg),
            success: true,
            message: owned("Already removed"),
        };
    }
    let v = chars_of(stderr);
    let ls = lines_vec(v.as_slice());
    if ls.len() > 0 {
        proof {
            assert(ls@[0]@ == lines(stderr@)[0]);
        }
        RemoveResult {
            package_name: owned(pkg),
            success: false,
            message: string_of(ls[0].as_slice()),
        }
    } else {
        RemoveResult {
            package_name: owned(pkg),
            success: false,
            message: owned("Unknown error"),
        }
    }
}

/// What `remove_apps` gives where AppX cannot be changed: every request
/// answered with a successful placeholder.
pub fn remove_apps(packages: &[String]) -> (r: Vec<RemoveResult>)
    ensures
        r@.len() == packages@.len(),
        forall|i: int|
            0 <= i < r@.len() ==> {
                &&& (#[trigger] r@[i]).package_name@ == packages@[i]@
                &&& r@[i].success
                &&& r@[i].message@ == "[stub] Would remove"@
            },
{
    let mut out: Vec<RemoveResult> = Vec::new();
    let mut i: usize = 0;
    while i < packages.len()
        invariant
            i <= packages@.len(),
            out@.len() == i,
            forall|k: int|
                0 <= k < i ==> {
                    &&& (#[trigger] out@[k]).package_name@ == packages@[k]@
                    &&& out@[k].success
                    &&& out@[k].message@ == "[stub] Would remove"@
                },
        decreases packages.len() - i,
    {
        out.push(
            RemoveResult {
                package_name: owned(packages[i].as_str()),
                success: true,
                message: owned("[stub] Would remove"),
            },
        );
        i = i + 1;
    }
    out
}


/// A removal that succeeded is `Removed`; a failed one whose error output
/// says the package was not found or does not exist (anywhere in it) counts
/// as done, `Already removed`; any other failure is no success. So success
/// is reported exactly when the script succeeded or the package was already
/// gone.
pub proof fn already_gone_counts_as_removed(succeeded: bool, stderr: Seq<char>, a: Seq<char>, b: Seq<char>)
    ensures
        succeeded ==> removal_outcome_spec(succeeded, stderr) == (true, "Removed"@),
        removal_outcome_spec(false, a + "does not exist"@ + b) == (true, "Already removed"@),
        removal_outcome_spec(false, a + "not found"@ + b) == (true, "Already removed"@),
        removal_outcome_spec(succeeded, stderr).0 <==> (succeeded || contains_seq(stderr, "not found"@)
            || contains_seq(stderr, "does not exist"@)),
        (!succeeded && removal_outcome_spec(succeeded, stderr).0) ==> removal_outcome_spec(
            succeeded,
            stderr,
        ).1 == "Already removed"@,
{
    let s1 = a + "does not exist"@ + b;
    assert(s1.subrange(a.len() as int, a.len() + "does not exist"@.len() as int) =~= "does not exist"@);
    let s2 = a + "not found"@ + b;
    assert(s2.subrange(a.len() as int, a.len() + "not found"@.len() as int) =~= "not found"@);
}

} // verus!
