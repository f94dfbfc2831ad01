//! The keys, in one table that drives the help overlay, the footer and the
//! command-line help.

use crate::sorting;
use crate::text;
use vstd::prelude::*;

verus! {

/// The pane that has the focus.
#[derive(Clone, Copy, Debug, PartialEq, Eq, Structural)]
pub enum Focus {
    Files,
    Disks,
    Packages,
    Reclaim,
}

/// A hint in the footer.
#[derive(Clone, Copy, Debug)]
pub struct FooterBinding {
    pub key: &'static str,
    pub action: &'static str,
}

#[verifier::ext_equal]
pub struct HintModel {
    pub key: Seq<char>,
    pub action: Seq<char>,
}

impl View for FooterBinding {
    type V = HintModel;

    open spec fn view(&self) -> HintModel {
        HintModel { key: self.key@, action: self.action@ }
    }
}

/// A key and what it does.
#[derive(Clone, Copy, Debug)]
pub struct KeyBinding {
    pub key: &'static str,
    pub action: &'static str,
    pub footer: Option<FooterBinding>,
}

#[verifier::ext_equal]
pub struct BindingModel {
    pub key: Seq<char>,
    pub action: Seq<char>,
    pub footer: Option<HintModel>,
}

impl View for KeyBinding {
    type V = BindingModel;

    open spec fn view(&self) -> BindingModel {
        BindingModel {
            key: self.key@,
            action: self.action@,
            footer: match self.footer {
                Some(hint) => Some(hint@),
                None => None,
            },
        }
    }
}

/// Keys that belong together.
#[derive(Debug)]
pub struct KeySection {
    pub title: &'static str,
    pub bindings: Vec<KeyBinding>,
}

#[verifier::ext_equal]
pub struct SectionModel {
    pub title: Seq<char>,
    pub bindings: Seq<BindingModel>,
}

impl View for KeySection {
    type V = SectionModel;

    open spec fn view(&self) -> SectionModel {
        SectionModel { title: self.title@, bindings: sorting::views(self.bindings@) }
    }
}

/// A key that shows in the help only.
pub open spec fn plain_key(key: Seq<char>, action: Seq<char>) -> BindingModel {
    BindingModel { key, action, footer: None }
}

/// A key with a hint in the footer.
pub open spec fn hinted_key(
    key: Seq<char>,
    action: Seq<char>,
    hint: Seq<char>,
    short: Seq<char>,
) -> BindingModel {
    BindingModel { key, action, footer: Some(HintModel { key: hint, action: short }) }
}

fn plain(key: &'static str, action: &'static str) -> (r: KeyBinding)
    ensures
        r@ == plain_key(key@, action@),
{
    KeyBinding { key, action, footer: None }
}

fn hinted(
    key: &'static str,
    action: &'static str,
    hint: &'static str,
    short: &'static str,
) -> (r: KeyBinding)
    ensures
        r@ == hinted_key(key@, action@, hint@, short@),
{
    KeyBinding { key, action, footer: Some(FooterBinding { key: hint, action: short }) }
}

fn add_key(list: &mut Vec<KeyBinding>, key: KeyBinding)
    ensures
        sorting::views(final(list)@) == sorting::views(old(list)@).push(key@),
{
    proof {
        sorting::views_push(list@, key);
    }
    list.push(key);
}

fn no_keys() -> (list: Vec<KeyBinding>)
    ensures
        sorting::views(list@) == Seq::<BindingModel>::empty(),
{
    let list: Vec<KeyBinding> = Vec::new();
    assert(sorting::views(list@) =~= Seq::<BindingModel>::empty());
    list
}

/// The keys that work everywhere.
pub open spec fn global_section() -> Seq<BindingModel> {
    seq![
        hinted_key("?"@, "Show keyboard help"@, "?"@, "help"@),
        hinted_key("q"@, "Quit"@, "q"@, "quit"@),
        plain_key("Esc, Ctrl+C"@, "Close modal or clear search/filter"@),
    ]
}

fn global_keys() -> (r: Vec<KeyBinding>)
    ensures
        sorting::views(r@) == global_section(),
{
    let mut r = no_keys();
    add_key(&mut r, hinted("?", "Show keyboard help", "?", "help"));
    add_key(&mut r, hinted("q", "Quit", "q", "quit"));
    add_key(&mut r, plain("Esc, Ctrl+C", "Close modal or clear search/filter"));
    assert(sorting::views(r@) =~= global_section());
    r
}

/// The keys that move around.
pub open spec fn navigation_section() -> Seq<BindingModel> {
    seq![
        hinted_key("Up/Down, j/k"@, "Move selection"@, "↑↓/jk"@, "move"@),
        plain_key("PageUp/PageDown"@, "Move one page"@),
        plain_key("Home/End"@, "Jump first/last"@),
        hinted_key("Enter"@, "Open selected item"@, "⏎"@, "open"@),
        hinted_key("Backspace"@, "Go to parent directory"@, "⌫"@, "up"@),
        hinted_key("Left/Right, h/l"@, "Switch pane or package view"@, "←→/hl"@, "pane/view"@),
        hinted_key("Tab, Shift+Tab"@, "Cycle panes"@, "Tab"@, "pane"@),
    ]
}

fn navigation_keys() -> (r: Vec<KeyBinding>)
    ensures
        sorting::views(r@) == navigation_section(),
{
    let mut r = no_keys();
    add_key(&mut r, hinted("Up/Down, j/k", "Move selection", "↑↓/jk", "move"));
    add_key(&mut r, plain("PageUp/PageDown", "Move one page"));
    add_key(&mut r, plain("Home/End", "Jump first/last"));
    add_key(&mut r, hinted("Enter", "Open selected item", "⏎", "open"));
    add_key(&mut r, hinted("Backspace", "Go to parent directory", "⌫", "up"));
    add_key(&mut r, hinted("Left/Right, h/l", "Switch pane or package view", "←→/hl", "pane/view"));
    add_key(&mut r, hinted("Tab, Shift+Tab", "Cycle panes", "Tab", "pane"));
    assert(sorting::views(r@) =~= navigation_section());
    r
}

/// The keys for files.
pub open spec fn files_section() -> Seq<BindingModel> {
    seq![
        hinted_key("/"@, "Search files or filter packages; Enter keeps, Esc clears"@, "/"@, "search"@),
        hinted_key("i"@, "Show details"@, "i"@, "info"@),
        plain_key("."@, "Toggle hidden files"@),
        plain_key("o"@, "Cycle sort mode"@),
        hinted_key("r"@, "Refresh view and rescan visible dirs"@, "r"@, "refresh"@),
        hinted_key("S"@, "Scan missing or stale visible directory sizes"@, "S"@, "scan all"@),
        plain_key("B"@, "Save history baseline"@),
        plain_key("t"@, "Open top-files list"@),
        plain_key("c"@, "Rename selected file"@),
        plain_key("n"@, "Create directory"@),
        plain_key("v"@, "Toggle mark"@),
        plain_key("a"@, "Mark all visible files"@),
        hinted_key("d"@, "Move selected item (or marks) to Trash"@, "d"@, "trash"@),
    ]
}

fn files_keys() -> (r: Vec<KeyBinding>)
    ensures
        sorting::views(r@) == files_section(),
{
    let mut r = no_keys();
    add_key(&mut r, hinted("/", "Search files or filter packages; Enter keeps, Esc clears", "/", "search"));
    add_key(&mut r, hinted("i", "Show details", "i", "info"));
    add_key(&mut r, plain(".", "Toggle hidden files"));
    add_key(&mut r, plain("o", "Cycle sort mode"));
    add_key(&mut r, hinted("r", "Refresh view and rescan visible dirs", "r", "refresh"));
    add_key(&mut r, hinted("S", "Scan missing or stale visible directory sizes", "S", "scan all"));
    add_key(&mut r, plain("B", "Save history baseline"));
    add_key(&mut r, plain("t", "Open top-files list"));
    add_key(&mut r, plain("c", "Rename selected file"));
    add_key(&mut r, plain("n", "Create directory"));
    add_key(&mut r, plain("v", "Toggle mark"));
    add_key(&mut r, plain("a", "Mark all visible files"));
    add_key(&mut r, hinted("d", "Move selected item (or marks) to Trash", "d", "trash"));
    assert(sorting::views(r@) =~= files_section());
    r
}

/// The keys that hand the selection to other programs.
pub open spec fn external_actions_section() -> Seq<BindingModel> {
    seq![
        hinted_key("Space"@, "Quick Look selected item"@, "Space"@, "preview"@),
        plain_key("f"@, "Reveal selected item in Finder"@),
        plain_key("O"@, "Open selected item with default app"@),
        plain_key("y"@, "Copy selected path"@),
        plain_key("s"@, "Open selected location in Terminal"@),
    ]
}

fn external_actions_keys() -> (r: Vec<KeyBinding>)
    ensures
        sorting::views(r@) == external_actions_section(),
{
    let mut r = no_keys();
    add_key(&mut r, hinted("Space", "Quick Look selected item", "Space", "preview"));
    add_key(&mut r, plain("f", "Reveal selected item in Finder"));
    add_key(&mut r, plain("O", "Open selected item with default app"));
    add_key(&mut r, plain("y", "Copy selected path"));
    add_key(&mut r, plain("s", "Open selected location in Terminal"));
    assert(sorting::views(r@) =~= external_actions_section());
    r
}

/// The keys for packages.
pub open spec fn packages_section() -> Seq<BindingModel> {
    seq![
        hinted_key("p"@, "Open packages pane / switch view"@, "p"@, "packages"@),
        hinted_key("u"@, "Toggle dependency-leaf filter"@, "u"@, "leaves"@),
        hinted_key("x"@, "Uninstall selected package"@, "x"@, "uninstall"@),
    ]
}

fn packages_keys() -> (r: Vec<KeyBinding>)
    ensures
        sorting::views(r@) == packages_section(),
{
    let mut r = no_keys();
    add_key(&mut r, hinted("p", "Open packages pane / switch view", "p", "packages"));
    add_key(&mut r, hinted("u", "Toggle dependency-leaf filter", "u", "leaves"));
    add_key(&mut r, hinted("x", "Uninstall selected package", "x", "uninstall"));
    assert(sorting::views(r@) =~= packages_section());
    r
}

/// The keys for reports.
pub open spec fn reclaim_reports_section() -> Seq<BindingModel> {
    seq![
        hinted_key("R"@, "Re-scan reclaim pane"@, "R"@, "rescan"@),
        hinted_key("E"@, "Empty Trash (when the report lists Trash)"@, "E"@, "empty trash"@),
        hinted_key("d"@, "Trash selected reclaim/top-files path"@, "d"@, "trash"@),
    ]
}

fn reclaim_reports_keys() -> (r: Vec<KeyBinding>)
    ensures
        sorting::views(r@) == reclaim_reports_section(),
{
    let mut r = no_keys();
    add_key(&mut r, hinted("R", "Re-scan reclaim pane", "R", "rescan"));
    add_key(&mut r, hinted("E", "Empty Trash (when the report lists Trash)", "E", "empty trash"));
    add_key(&mut r, hinted("d", "Trash selected reclaim/top-files path", "d", "trash"));
    assert(sorting::views(r@) =~= reclaim_reports_section());
    r
}

/// All sections, in the order of the help.
pub open spec fn help() -> Seq<SectionModel> {
    seq![
        SectionModel { title: "Global"@, bindings: global_section() },
        SectionModel { title: "Navigation"@, bindings: navigation_section() },
        SectionModel { title: "Files"@, bindings: files_section() },
        SectionModel { title: "Actions"@, bindings: external_actions_section() },
        SectionModel { title: "Packages"@, bindings: packages_section() },
        SectionModel { title: "Reclaim / Reports"@, bindings: reclaim_reports_section() },
    ]
}

fn add_section(list: &mut Vec<KeySection>, title: &'static str, bindings: Vec<KeyBinding>)
    ensures
        sorting::views(final(list)@) == sorting::views(old(list)@).push(
            SectionModel { title: title@, bindings: sorting::views(bindings@) },
        ),
{
    let section = KeySection { title, bindings };
    proof {
        sorting::views_push(list@, section);
    }
    list.push(section);
}

/// All sections, in the order of the help.
pub fn help_sections() -> (r: Vec<KeySection>)
    ensures
        sorting::views(r@) == help(),
{
    let mut r: Vec<KeySection> = Vec::new();
    assert(sorting::views(r@) =~= Seq::<SectionModel>::empty());
    add_section(&mut r, "Global", global_keys());
    add_section(&mut r, "Navigation", navigation_keys());
    add_section(&mut r, "Files", files_keys());
    add_section(&mut r, "Actions", external_actions_keys());
    add_section(&mut r, "Packages", packages_keys());
    add_section(&mut r, "Reclaim / Reports", reclaim_reports_keys());
    assert(sorting::views(r@) =~= help());
    r
}

/// The keys that remove something.
pub open spec fn is_destructive(key: Seq<char>) -> bool {
    key == "d"@ || key == "E"@ || key == "x"@
}

pub fn is_destructive_key(key: &str) -> (r: bool)
    ensures
        r == is_destructive(key@),
{
    text::same_text(key, "d") || text::same_text(key, "E") || text::same_text(key, "x")
}

// ---------------------------------------------------------------------------
// The footer
// ---------------------------------------------------------------------------

/// Some hint has this key.
pub open spec fn has_hint(hints: Seq<HintModel>, key: Seq<char>) -> bool {
    exists|i: int| 0 <= i < hints.len() && (#[trigger] hints[i]).key == key
}

/// The hints after one more binding: its hint is added where its key has none
/// yet.
pub open spec fn with_hint(hints: Seq<HintModel>, binding: BindingModel) -> Seq<HintModel> {
    match binding.footer {
        Some(hint) => if has_hint(hints, hint.key) {
            hints
        } else {
            hints.push(hint)
        },
        None => hints,
    }
}

/// The hints after several bindings.
pub open spec fn with_hints(hints: Seq<HintModel>, bindings: Seq<BindingModel>) -> Seq<HintModel>
    decreases bindings.len(),
{
    if bindings.len() == 0 {
        hints
    } else {
        with_hint(with_hints(hints, bindings.drop_last()), bindings.last())
    }
}

/// The bindings that matter to a pane, the most relevant first.
pub open spec fn pane_bindings(focus: Focus) -> Seq<BindingModel> {
    match focus {
        Focus::Files => navigation_section() + files_section() + external_actions_section()
            + packages_section(),
        Focus::Disks => navigation_section() + external_actions_section() + packages_section(),
        Focus::Packages => navigation_section() + packages_section() + external_actions_section(),
        Focus::Reclaim => navigation_section() + reclaim_reports_section()
            + external_actions_section(),
    }
}

/// The global bindings without the help key, which the footer always shows.
pub open spec fn trailing_bindings() -> Seq<BindingModel> {
    global_section().filter(|b: BindingModel| !(b.footer is Some && b.footer->0.key == "?"@))
}

/// The footer's hints for a pane.
pub open spec fn footer_of(focus: Focus) -> Seq<HintModel> {
    with_hints(with_hints(Seq::empty(), pane_bindings(focus)), trailing_bindings())
}

fn knows_key(hints: &Vec<FooterBinding>, key: &str) -> (r: bool)
    ensures
        r == has_hint(sorting::views(hints@), key@),
{
    let ghost all = sorting::views(hints@);
    let mut i: usize = 0;
    while i < hints.len()
        invariant
            i <= hints@.len(),
            all == sorting::views(hints@),
            forall|k: int| 0 <= k < i ==> (#[trigger] all[k]).key != key@,
        decreases hints@.len() - i,
    {
        if text::same_text(hints[i].key, key) {
            assert(all[i as int].key == key@);
            return true;
        }
        i += 1;
    }
    false
}

fn add_hints(hints: &mut Vec<FooterBinding>, bindings: &Vec<KeyBinding>)
    ensures
        sorting::views(final(hints)@) == with_hints(
            sorting::views(old(hints)@),
            sorting::views(bindings@),
        ),
{
    let ghost start = sorting::views(hints@);
    let ghost all = sorting::views(bindings@);
    let mut i: usize = 0;
    assert(all.take(0) =~= Seq::<BindingModel>::empty());
    while i < bindings.len()
        invariant
            i <= bindings@.len(),
            all == sorting::views(bindings@),
            sorting::views(hints@) == with_hints(start, all.take(i as int)),
        decreases bindings@.len() - i,
    {
        assert(all.take(i + 1).drop_last() =~= all.take(i as int));
        assert(all.take(i + 1).last() == bindings@[i as int]@);
        match bindings[i].footer {
            Some(hint) => {
                if !knows_key(hints, hint.key) {
                    proof {
                        sorting::views_push(hints@, hint);
                    }
                    hints.push(hint);
                }
            },
            None => {},
        }
        i += 1;
    }
    assert(all.take(all.len() as int) =~= all);
}

/// Hints after one list of bindings and another.
proof fn with_hints_joined(hints: Seq<HintModel>, a: Seq<BindingModel>, b: Seq<BindingModel>)
    ensures
        with_hints(hints, a + b) == with_hints(with_hints(hints, a), b),
    decreases b.len(),
{
    if b.len() == 0 {
        assert(a + b =~= a);
    } else {
        with_hints_joined(hints, a, b.drop_last());
        assert((a + b).drop_last() =~= a + b.drop_last());
    }
}

fn trailing_keys() -> (r: Vec<KeyBinding>)
    ensures
        sorting::views(r@) == trailing_bindings(),
{
    let all = global_keys();
    let ghost models = sorting::views(all@);
    let ghost wanted = |b: BindingModel| !(b.footer is Some && b.footer->0.key == "?"@);
    let mut r = no_keys();
    let mut i: usize = 0;
    proof {
        reveal(Seq::filter);
        assert(models.take(0) =~= Seq::<BindingModel>::empty());
        assert(models.take(0).filter(wanted) =~= Seq::<BindingModel>::empty());
    }
    while i < all.len()
        invariant
            i <= all@.len(),
            models == sorting::views(all@),
            wanted == (|b: BindingModel| !(b.footer is Some && b.footer->0.key == "?"@)),
            sorting::views(r@) == models.take(i as int).filter(wanted),
        decreases all@.len() - i,
    {
        let binding = all[i];
        let keep = match binding.footer {
            Some(hint) => !text::same_text(hint.key, "?"),
            None => true,
        };
        proof {
            let next = models.take(i + 1);
            assert(next.drop_last() =~= models.take(i as int));
            assert(next.last() == binding@);
            reveal(Seq::filter);
            assert(keep == wanted(binding@));
        }
        if keep {
            add_key(&mut r, binding);
        }
        i += 1;
    }
    assert(models.take(models.len() as int) =~= models);
    r
}

/// The footer's hints for a pane, without the help key.
pub fn footer_bindings_for(focus: Focus) -> (r: Vec<FooterBinding>)
    ensures
        sorting::views(r@) == footer_of(focus),
{
    let mut r: Vec<FooterBinding> = Vec::new();
    assert(sorting::views(r@) =~= Seq::<HintModel>::empty());
    proof {
        let none = Seq::<HintModel>::empty();
        let nav = navigation_section();
        let ext = external_actions_section();
        with_hints_joined(none, nav, files_section());
        with_hints_joined(none, nav + files_section(), ext);
        with_hints_joined(none, nav + files_section() + ext, packages_section());
        with_hints_joined(none, nav, ext);
        with_hints_joined(none, nav + ext, packages_section());
        with_hints_joined(none, nav, packages_section());
        with_hints_joined(none, nav + packages_section(), ext);
        with_hints_joined(none, nav, reclaim_reports_section());
        with_hints_joined(none, nav + reclaim_reports_section(), ext);
    }
    add_hints(&mut r, &navigation_keys());
    match focus {
        Focus::Files => {
            add_hints(&mut r, &files_keys());
            add_hints(&mut r, &external_actions_keys());
            add_hints(&mut r, &packages_keys());
        },
        Focus::Disks => {
            add_hints(&mut r, &external_actions_keys());
            add_hints(&mut r, &packages_keys());
        },
        Focus::Packages => {
            add_hints(&mut r, &packages_keys());
            add_hints(&mut r, &external_actions_keys());
        },
        Focus::Reclaim => {
            add_hints(&mut r, &reclaim_reports_keys());
            add_hints(&mut r, &external_actions_keys());
        },
    }
    add_hints(&mut r, &trailing_keys());
    r
}

// ---------------------------------------------------------------------------
// Laws
// ---------------------------------------------------------------------------

/// No two hints share a key.
pub open spec fn keys_differ(hints: Seq<HintModel>) -> bool {
    forall|i: int, j: int|
        0 <= i < j < hints.len() ==> (#[trigger] hints[i]).key != (#[trigger] hints[j]).key
}

proof fn with_hints_keeps_keys_apart(hints: Seq<HintModel>, bindings: Seq<BindingModel>)
    requires
        keys_differ(hints),
    ensures
        keys_differ(with_hints(hints, bindings)),
    decreases bindings.len(),
{
    if bindings.len() > 0 {
        let before = with_hints(hints, bindings.drop_last());
        with_hints_keeps_keys_apart(hints, bindings.drop_last());
        let after = with_hint(before, bindings.last());
        match bindings.last().footer {
            Some(hint) => {
                if !has_hint(before, hint.key) {
                    assert forall|i: int, j: int| 0 <= i < j < after.len() implies (
                    #[trigger] after[i]).key != (#[trigger] after[j]).key by {
                        assert(after[i] == before[i]);
                    }
                }
            },
            None => {},
        }
    }
}

/// No pane's footer shows a key twice.
pub proof fn footer_keys_are_unique(focus: Focus)
    ensures
        keys_differ(footer_of(focus)),
{
    with_hints_keeps_keys_apart(Seq::empty(), pane_bindings(focus));
    with_hints_keeps_keys_apart(
        with_hints(Seq::empty(), pane_bindings(focus)),
        trailing_bindings(),
    );
}

/// No binding's hint has this key.
spec fn hints_avoid(bindings: Seq<BindingModel>, key: Seq<char>) -> bool {
    forall|i: int|
        0 <= i < bindings.len() ==> !((#[trigger] bindings[i]).footer is Some
            && bindings[i].footer->0.key == key)
}

proof fn with_hints_avoids(hints: Seq<HintModel>, bindings: Seq<BindingModel>, key: Seq<char>)
    requires
        !has_hint(hints, key),
        hints_avoid(bindings, key),
    ensures
        !has_hint(with_hints(hints, bindings), key),
    decreases bindings.len(),
{
    if bindings.len() > 0 {
        let before = with_hints(hints, bindings.drop_last());
        assert forall|i: int| 0 <= i < bindings.drop_last().len() implies !((
        #[trigger] bindings.drop_last()[i]).footer is Some && bindings.drop_last()[i].footer->0.key
            == key) by {
            assert(bindings.drop_last()[i] == bindings[i]);
        }
        with_hints_avoids(hints, bindings.drop_last(), key);
        let last = bindings[bindings.len() - 1];
        assert(last == bindings.last());
        let after = with_hint(before, last);
        assert forall|i: int| 0 <= i < after.len() implies (#[trigger] after[i]).key != key by {
            if i < before.len() {
                assert(after[i] == before[i]);
            }
        }
    }
}

proof fn navigation_avoids_help()
    ensures
        hints_avoid(navigation_section(), "?"@),
{
    reveal_strlit("?");
    reveal_strlit("Tab");
    reveal_strlit("←→/hl");
    reveal_strlit("↑↓/jk");
    reveal_strlit("⌫");
    reveal_strlit("⏎");
    assert("Tab"@.len() != "?"@.len());
    assert("←→/hl"@.len() != "?"@.len());
    assert("↑↓/jk"@.len() != "?"@.len());
    assert("⌫"@[0] != "?"@[0]);
    assert("⏎"@[0] != "?"@[0]);
}

proof fn files_avoids_help()
    ensures
        hints_avoid(files_section(), "?"@),
{
    reveal_strlit("?");
    reveal_strlit("/");
    reveal_strlit("S");
    reveal_strlit("d");
    reveal_strlit("i");
    reveal_strlit("r");
    assert("/"@[0] != "?"@[0]);
    assert("S"@[0] != "?"@[0]);
    assert("d"@[0] != "?"@[0]);
    assert("i"@[0] != "?"@[0]);
    assert("r"@[0] != "?"@[0]);
}

proof fn external_actions_avoids_help()
    ensures
        hints_avoid(external_actions_section(), "?"@),
{
    reveal_strlit("?");
    reveal_strlit("Space");
    assert("Space"@.len() != "?"@.len());
}

proof fn packages_avoids_help()
    ensures
        hints_avoid(packages_section(), "?"@),
{
    reveal_strlit("?");
    reveal_strlit("p");
    reveal_strlit("u");
    reveal_strlit("x");
    assert("p"@[0] != "?"@[0]);
    assert("u"@[0] != "?"@[0]);
    assert("x"@[0] != "?"@[0]);
}

proof fn reclaim_reports_avoids_help()
    ensures
        hints_avoid(reclaim_reports_section(), "?"@),
{
    reveal_strlit("?");
    reveal_strlit("E");
    reveal_strlit("R");
    reveal_strlit("d");
    assert("E"@[0] != "?"@[0]);
    assert("R"@[0] != "?"@[0]);
    assert("d"@[0] != "?"@[0]);
}

/// The help key is left to the footer itself, which always shows it.
pub proof fn footer_leaves_help_out(focus: Focus)
    ensures
        !has_hint(footer_of(focus), "?"@),
{
    let key = "?"@;
    navigation_avoids_help();
    files_avoids_help();
    external_actions_avoids_help();
    packages_avoids_help();
    reclaim_reports_avoids_help();
    assert(hints_avoid(pane_bindings(focus), key));
    let wanted = |b: BindingModel| !(b.footer is Some && b.footer->0.key == "?"@);
    assert(hints_avoid(trailing_bindings(), key)) by {
        assert forall|i: int| 0 <= i < trailing_bindings().len() implies !((
        #[trigger] trailing_bindings()[i]).footer is Some && trailing_bindings()[i].footer->0.key
            == key) by {
            global_section().lemma_filter_pred(wanted, i);
        }
    }
    with_hints_avoids(Seq::empty(), pane_bindings(focus), key);
    with_hints_avoids(with_hints(Seq::empty(), pane_bindings(focus)), trailing_bindings(), key);
}

} // verus!
