//! Configuration: the places where the application keeps its files, its
//! defaults, and the colour theme read from Omarchy's `colors.toml`.
use vstd::prelude::*;
use crate::color::{light_readable, is_light, is_light_range};
use crate::text::chars_of;
use crate::themefile::{theme_entries, theme_entries_exec, pick, pick_exec, lookup};

verus! {

/// `PathBuf::join` on Unix: an absolute `rel` replaces `base`; otherwise
/// `rel` is appended, with a `/` between the two unless `base` is empty or
/// already ends in `/`.
pub open spec fn path_join(base: Seq<char>, rel: Seq<char>) -> Seq<char> {
    if rel.len() > 0 && rel[0] == '/' {
        rel
    } else if base.len() == 0 || base.last() == '/' {
        base + rel
    } else {
        base + seq!['/'] + rel
    }
}

/// `base` joined with `rel`.
pub fn join_path(base: &str, rel: &str) -> (res: String)
    ensures
        res@ == path_join(base@, rel@),
{
    let rel_chars = crate::text::chars_of(rel);
    if rel_chars.len() > 0 && rel_chars[0] == '/' {
        return rel.to_owned();
    }
    let base_chars = crate::text::chars_of(base);
    let mut res = base.to_owned();
    if !(base_chars.len() == 0 || base_chars[base_chars.len() - 1] == '/') {
        res.append("/");
        proof {
            reveal_strlit("/");
        }
    }
    res.append(rel);
    res
}

/// The name of the application, used for its data directory and socket.
pub open spec fn app_name() -> Seq<char> {
    "stickyboard"@
}

/// Where per-user data lives when the platform names no data directory:
/// `$HOME/.local/share`, or `./.local/share` without a home directory.
pub open spec fn fallback_data_dir_spec(home: Option<Seq<char>>) -> Seq<char> {
    let h = match home {
        Some(h) => h,
        None => "."@,
    };
    path_join(path_join(h, ".local"@), "share"@)
}

/// `$HOME/.local/share`, or `./.local/share` where `home` is `None`.
pub fn fallback_data_dir(home: Option<&str>) -> (res: String)
    ensures
        res@ == fallback_data_dir_spec(match home {
            Some(h) => Some(h@),
            None => None,
        }),
{
    let h = match home {
        Some(h) => h,
        None => ".",
    };
    let local = join_path(h, ".local");
    join_path(local.as_str(), "share")
}

/// The directory of the application inside a data directory.
pub fn get_app_dir(data_dir: &str) -> (res: String)
    ensures
        res@ == path_join(data_dir@, app_name()),
{
    join_path(data_dir, APP_NAME)
}

/// The SQLite database inside the application directory.
pub fn get_db_path(app_dir: &str) -> (res: String)
    ensures
        res@ == path_join(app_dir@, "notes.db"@),
{
    join_path(app_dir, "notes.db")
}

/// The daemon's Unix socket inside a directory (the runtime directory, or
/// the application directory where there is none).
pub fn get_socket_path(dir: &str) -> (res: String)
    ensures
        res@ == path_join(dir@, "stickyboard.sock"@),
{
    join_path(dir, "stickyboard.sock")
}

/// Which binary to start: the sibling of the running executable where it
/// exists, else the bare name, to be found on `PATH`.
pub fn find_bin_path(sibling: Option<&str>, sibling_exists: bool, bin_name: &str) -> (res: String)
    ensures
        res@ == (match sibling {
            Some(s) => if sibling_exists {
                s@
            } else {
                bin_name@
            },
            None => bin_name@,
        }),
{
    match sibling {
        Some(s) => if sibling_exists {
            s.to_owned()
        } else {
            bin_name.to_owned()
        },
        None => bin_name.to_owned(),
    }
}

/// The bundled handwriting font.
pub open spec fn font_file_name() -> Seq<char> {
    "Excalifont-Regular.ttf"@
}

/// Where to look for the bundled font, in order: the working directory,
/// then the directory of the executable and up to two of its ancestors
/// (`exe_dirs` lists the executable's directory first, then its parents).
pub open spec fn font_candidates_spec(cwd: Option<Seq<char>>, exe_dirs: Seq<Seq<char>>) -> Seq<Seq<char>> {
    let head = match cwd {
        Some(c) => seq![path_join(c, font_file_name())],
        None => Seq::empty(),
    };
    let n = if exe_dirs.len() < 3 {
        exe_dirs.len()
    } else {
        3
    };
    head + Seq::new(n, |i: int| path_join(exe_dirs[i], font_file_name()))
}

/// The places where the bundled font may be found, in the order in which
/// they are tried.
pub fn font_candidates(cwd: Option<&str>, exe_dirs: &Vec<String>) -> (res: Vec<String>)
    ensures
        res@.map_values(|p: String| p@) == font_candidates_spec(
            match cwd {
                Some(c) => Some(c@),
                None => None,
            },
            exe_dirs@.map_values(|d: String| d@),
        ),
{
    let ghost dirs = exe_dirs@.map_values(|d: String| d@);
    let ghost cw = match cwd {
        Some(c) => Some(c@),
        None => None,
    };
    let mut res: Vec<String> = Vec::new();
    match cwd {
        Some(c) => {
            res.push(join_path(c, "Excalifont-Regular.ttf"));
        },
        None => {},
    }
    let ghost head = res@.map_values(|p: String| p@);
    assert(head =~= match cw {
        Some(c) => seq![path_join(c, font_file_name())],
        None => Seq::<Seq<char>>::empty(),
    });
    let n: usize = if exe_dirs.len() < 3 {
        exe_dirs.len()
    } else {
        3
    };
    let mut i: usize = 0;
    while i < n
        invariant
            0 <= i <= n <= exe_dirs@.len(),
            n <= 3,
            dirs == exe_dirs@.map_values(|d: String| d@),
            head.len() <= 1,
            res@.map_values(|p: String| p@) == head + Seq::new(
                i as nat,
                |k: int| path_join(dirs[k], font_file_name()),
            ),
        decreases n - i,
    {
        let ghost before = res@;
        let p = join_path(exe_dirs[i].as_str(), "Excalifont-Regular.ttf");
        assert(dirs[i as int] == exe_dirs@[i as int]@);
        assert(p@ == path_join(dirs[i as int], font_file_name()));
        let ghost pv = p@;
        res.push(p);
        proof {
            assert(res@.len() == before.len() + 1);
            assert(res@[res@.len() - 1]@ == pv);
            let lhs = res@.map_values(|p: String| p@);
            let old_m = before.map_values(|p: String| p@);
            let rhs = head + Seq::new((i + 1) as nat, |k: int| path_join(dirs[k], font_file_name()));
            assert(old_m == head + Seq::new(i as nat, |k: int| path_join(dirs[k], font_file_name())));
            assert(old_m.len() == before.len());
            assert(lhs.len() == res@.len());
            assert(lhs.len() == rhs.len());
            assert forall|k: int| 0 <= k < lhs.len() implies lhs[k] == rhs[k] by {
                if k < lhs.len() - 1 {
                    assert(res@[k] == before[k]);
                    assert(lhs[k] == old_m[k]);
                } else {
                    assert(lhs[k] == pv);
                }
            }
            assert(lhs =~= rhs);
        }
        i = i + 1;
    }
    res
}

/// The first candidate that exists, by its position.
pub fn first_existing(exists: &Vec<bool>) -> (res: Option<usize>)
    ensures
        match res {
            Some(i) => i < exists@.len() && exists@[i as int] && forall|j: int| 0 <= j < i ==> !exists@[j],
            None => forall|j: int| 0 <= j < exists@.len() ==> !exists@[j],
        },
{
    let mut i: usize = 0;
    while i < exists.len()
        invariant
            0 <= i <= exists@.len(),
            forall|j: int| 0 <= j < i ==> !exists@[j],
        decreases exists@.len() - i,
    {
        if exists[i] {
            return Some(i);
        }
        i = i + 1;
    }
    None
}

/// The theme colours file where current Omarchy keeps it.
pub open spec fn new_theme_path_spec(home: Seq<char>) -> Seq<char> {
    path_join(
        path_join(
            path_join(
                path_join(path_join(path_join(home, ".local"@), "state"@), "omarchy"@),
                "current"@,
            ),
            "theme"@,
        ),
        "colors.toml"@,
    )
}

/// The theme colours file where earlier Omarchy kept it.
pub open spec fn legacy_theme_path_spec(home: Seq<char>) -> Seq<char> {
    path_join(
        path_join(path_join(path_join(path_join(home, ".config"@), "omarchy"@), "current"@), "theme"@),
        "colors.toml"@,
    )
}

/// `<home>/.local/state/omarchy/current/theme/colors.toml`.
pub fn new_theme_path(home: &str) -> (res: String)
    ensures
        res@ == new_theme_path_spec(home@),
{
    let p = join_path(home, ".local");
    let p = join_path(p.as_str(), "state");
    let p = join_path(p.as_str(), "omarchy");
    let p = join_path(p.as_str(), "current");
    let p = join_path(p.as_str(), "theme");
    join_path(p.as_str(), "colors.toml")
}

/// `<home>/.config/omarchy/current/theme/colors.toml`.
pub fn legacy_theme_path(home: &str) -> (res: String)
    ensures
        res@ == legacy_theme_path_spec(home@),
{
    let p = join_path(home, ".config");
    let p = join_path(p.as_str(), "omarchy");
    let p = join_path(p.as_str(), "current");
    let p = join_path(p.as_str(), "theme");
    join_path(p.as_str(), "colors.toml")
}



/// The application's name.
pub const APP_NAME: &'static str = "stickyboard";

/// The colour of a note created without one.
pub const DEFAULT_COLOR: &'static str = "yellow";

/// The width of a note created without one.
pub const DEFAULT_WIDTH: i32 = 300;

/// The height of a note created without one.
pub const DEFAULT_HEIGHT: i32 = 250;

/// The theme file to read, given which of the two candidate files exist:
/// the current location where it exists, else the legacy location where
/// that exists, else the current location.
pub open spec fn resolve_theme_path_spec(home: Seq<char>, new_exists: bool, legacy_exists: bool) -> Seq<
    char,
> {
    if new_exists {
        new_theme_path_spec(home)
    } else if legacy_exists {
        legacy_theme_path_spec(home)
    } else {
        new_theme_path_spec(home)
    }
}

/// The colours of the sticky notes and of the application, as text.
pub struct ThemeColors {
    pub background: String,
    pub foreground: String,
    pub accent: String,
    pub yellow_bg: String,
    pub yellow_fg: String,
    pub blue_bg: String,
    pub blue_fg: String,
    pub green_bg: String,
    pub green_fg: String,
    pub pink_bg: String,
    pub pink_fg: String,
    pub orange_bg: String,
    pub orange_fg: String,
}

/// The colours of a theme, as sequences of characters.
pub struct ThemeColorsView {
    pub background: Seq<char>,
    pub foreground: Seq<char>,
    pub accent: Seq<char>,
    pub yellow_bg: Seq<char>,
    pub yellow_fg: Seq<char>,
    pub blue_bg: Seq<char>,
    pub blue_fg: Seq<char>,
    pub green_bg: Seq<char>,
    pub green_fg: Seq<char>,
    pub pink_bg: Seq<char>,
    pub pink_fg: Seq<char>,
    pub orange_bg: Seq<char>,
    pub orange_fg: Seq<char>,
}

impl View for ThemeColors {
    type V = ThemeColorsView;

    open spec fn view(&self) -> ThemeColorsView {
        ThemeColorsView {
            background: self.background@,
            foreground: self.foreground@,
            accent: self.accent@,
            yellow_bg: self.yellow_bg@,
            yellow_fg: self.yellow_fg@,
            blue_bg: self.blue_bg@,
            blue_fg: self.blue_fg@,
            green_bg: self.green_bg@,
            green_fg: self.green_fg@,
            pink_bg: self.pink_bg@,
            pink_fg: self.pink_fg@,
            orange_bg: self.orange_bg@,
            orange_fg: self.orange_fg@,
        }
    }
}

/// The built-in theme.
pub open spec fn default_theme() -> ThemeColorsView {
    ThemeColorsView {
        background: "#1e1e2e"@,
        foreground: "#cdd6f4"@,
        accent: "#cba6f7"@,
        yellow_bg: "#fef3c7"@,
        yellow_fg: "#78350f"@,
        blue_bg: "#dbeafe"@,
        blue_fg: "#1e3a8a"@,
        green_bg: "#d1fae5"@,
        green_fg: "#065f46"@,
        pink_bg: "#fce7f3"@,
        pink_fg: "#831843"@,
        orange_bg: "#ffedd5"@,
        orange_fg: "#7c2d12"@,
    }
}

/// The text colour for a note background: near-black on a light
/// background, near-white on a dark one.
pub open spec fn fg_for(bg: Seq<char>) -> Seq<char> {
    if is_light(bg) {
        "#1a1a1a"@
    } else {
        "#f8f9fa"@
    }
}

/// The theme keys that give the yellow note background, strongest first.
pub open spec fn yellow_keys() -> Seq<Seq<char>> {
    seq!["yellow"@, "bright_yellow"@, "color3"@, "color11"@]
}

/// The theme keys that give the blue note background, strongest first.
pub open spec fn blue_keys() -> Seq<Seq<char>> {
    seq!["blue"@, "bright_blue"@, "color4"@, "color12"@]
}

/// The theme keys that give the green note background, strongest first.
pub open spec fn green_keys() -> Seq<Seq<char>> {
    seq!["green"@, "bright_green"@, "color2"@, "color10"@]
}

/// The theme keys that give the pink note background, strongest first.
pub open spec fn pink_keys() -> Seq<Seq<char>> {
    seq!["pink"@, "magenta"@, "bright_magenta"@, "color5"@, "color13"@]
}

/// The theme keys that give the orange note background, strongest first.
pub open spec fn orange_keys() -> Seq<Seq<char>> {
    seq!["orange"@, "red"@, "bright_orange"@, "bright_red"@, "color1"@, "color9"@]
}

pub open spec fn yellow_bg_of(content: Seq<char>) -> Seq<char> {
    pick(theme_entries(content), yellow_keys(), "#fef3c7"@)
}

pub open spec fn blue_bg_of(content: Seq<char>) -> Seq<char> {
    pick(theme_entries(content), blue_keys(), "#dbeafe"@)
}

pub open spec fn green_bg_of(content: Seq<char>) -> Seq<char> {
    pick(theme_entries(content), green_keys(), "#d1fae5"@)
}

pub open spec fn pink_bg_of(content: Seq<char>) -> Seq<char> {
    pick(theme_entries(content), pink_keys(), "#fce7f3"@)
}

pub open spec fn orange_bg_of(content: Seq<char>) -> Seq<char> {
    pick(theme_entries(content), orange_keys(), "#ffedd5"@)
}

/// The theme that a `colors.toml` describes: the last value given to each
/// key counts; `background`, `foreground` and `accent` keep their built-in
/// value where unassigned; each note background comes from the first of its
/// keys that is assigned, else from the built-in palette; each note text
/// colour follows from its background.
pub open spec fn parse_theme(content: Seq<char>) -> ThemeColorsView {
    let e = theme_entries(content);
    ThemeColorsView {
        background: pick(e, seq!["background"@], "#1e1e2e"@),
        foreground: pick(e, seq!["foreground"@], "#cdd6f4"@),
        accent: pick(e, seq!["accent"@], "#cba6f7"@),
        yellow_bg: yellow_bg_of(content),
        yellow_fg: fg_for(yellow_bg_of(content)),
        blue_bg: blue_bg_of(content),
        blue_fg: fg_for(blue_bg_of(content)),
        green_bg: green_bg_of(content),
        green_fg: fg_for(green_bg_of(content)),
        pink_bg: pink_bg_of(content),
        pink_fg: fg_for(pink_bg_of(content)),
        orange_bg: orange_bg_of(content),
        orange_fg: fg_for(orange_bg_of(content)),
    }
}

/// Whether the lightness of every note background that a `colors.toml`
/// gives can be told without a panic.
pub open spec fn theme_readable(content: Seq<char>) -> bool {
    &&& light_readable(yellow_bg_of(content))
    &&& light_readable(blue_bg_of(content))
    &&& light_readable(green_bg_of(content))
    &&& light_readable(pink_bg_of(content))
    &&& light_readable(orange_bg_of(content))
}

/// `ks` with the characters of `k` added.
fn push_key(ks: &mut Vec<Vec<char>>, k: &str)
    ensures
        final(ks)@.map_values(|x: Vec<char>| x@) == old(ks)@.map_values(|x: Vec<char>| x@).push(k@),
{
    ks.push(chars_of(k));
    assert(final(ks)@.map_values(|x: Vec<char>| x@) =~= old(ks)@.map_values(|x: Vec<char>| x@).push(
        k@,
    ));
}

fn keys1(a: &str) -> (res: Vec<Vec<char>>)
    ensures
        res@.map_values(|x: Vec<char>| x@) == seq![a@],
{
    let mut ks: Vec<Vec<char>> = Vec::new();
    assert(ks@.map_values(|x: Vec<char>| x@) =~= Seq::<Seq<char>>::empty());
    push_key(&mut ks, a);
    ks
}

fn keys4(a: &str, b: &str, c: &str, d: &str) -> (res: Vec<Vec<char>>)
    ensures
        res@.map_values(|x: Vec<char>| x@) == seq![a@, b@, c@, d@],
{
    let mut ks = keys1(a);
    push_key(&mut ks, b);
    push_key(&mut ks, c);
    push_key(&mut ks, d);
    ks
}

/// The text colour for the note background `bg`.
fn fg_exec(bg: &Vec<char>) -> (res: String)
    requires
        light_readable(bg@),
    ensures
        res@ == fg_for(bg@),
{
    assert(bg@.subrange(0, bg@.len() as int) =~= bg@);
    if is_light_range(bg, 0, bg.len()) {
        "#1a1a1a".to_owned()
    } else {
        "#f8f9fa".to_owned()
    }
}

impl ThemeColors {
    /// The built-in theme.
    pub fn default_colors() -> (res: Self)
        ensures
            res@ == default_theme(),
    {
        ThemeColors {
            background: "#1e1e2e".to_owned(),
            foreground: "#cdd6f4".to_owned(),
            accent: "#cba6f7".to_owned(),
            yellow_bg: "#fef3c7".to_owned(),
            yellow_fg: "#78350f".to_owned(),
            blue_bg: "#dbeafe".to_owned(),
            blue_fg: "#1e3a8a".to_owned(),
            green_bg: "#d1fae5".to_owned(),
            green_fg: "#065f46".to_owned(),
            pink_bg: "#fce7f3".to_owned(),
            pink_fg: "#831843".to_owned(),
            orange_bg: "#ffedd5".to_owned(),
            orange_fg: "#7c2d12".to_owned(),
        }
    }

    /// The theme file to read under `home`: the current Omarchy location
    /// where it exists, else the legacy location where that exists, else the
    /// current location.
    pub fn resolve_theme_path(home: &str, new_exists: bool, legacy_exists: bool) -> (res: String)
        ensures
            res@ == resolve_theme_path_spec(home@, new_exists, legacy_exists),
    {
        if new_exists {
            new_theme_path(home)
        } else if legacy_exists {
            legacy_theme_path(home)
        } else {
            new_theme_path(home)
        }
    }

    /// The theme file to read, given the home directory: none without a
    /// home directory or with an empty one.
    pub fn theme_path(home: Option<&str>, new_exists: bool, legacy_exists: bool) -> (res: Option<
        String,
    >)
        ensures
            match home {
                Some(h) => if h@.len() == 0 {
                    res is None
                } else {
                    res is Some && res->0@ == resolve_theme_path_spec(h@, new_exists, legacy_exists)
                },
                None => res is None,
            },
    {
        match home {
            Some(h) => if h.is_empty() {
                None
            } else {
                Some(Self::resolve_theme_path(h, new_exists, legacy_exists))
            },
            None => None,
        }
    }

    /// The theme that `content` describes, or `None` where telling the
    /// lightness of one of its note backgrounds would panic.
    pub fn parse_checked(content: &str) -> (res: Option<Self>)
        ensures
            theme_readable(content@) ==> res is Some && res->0@ == parse_theme(content@),
            !theme_readable(content@) ==> res is None,
    {
        let chars = chars_of(content);
        let entries = theme_entries_exec(&chars);
        let ghost sv = theme_entries(content@);
        let yellow_bg = pick_exec(
            &entries,
            &keys4("yellow", "bright_yellow", "color3", "color11"),
            &chars_of("#fef3c7"),
            Ghost(sv),
        );
        let blue_bg = pick_exec(
            &entries,
            &keys4("blue", "bright_blue", "color4", "color12"),
            &chars_of("#dbeafe"),
            Ghost(sv),
        );
        let green_bg = pick_exec(
            &entries,
            &keys4("green", "bright_green", "color2", "color10"),
            &chars_of("#d1fae5"),
            Ghost(sv),
        );
        let mut pink_keys_exec = keys4("pink", "magenta", "bright_magenta", "color5");
        push_key(&mut pink_keys_exec, "color13");
        let pink_bg = pick_exec(&entries, &pink_keys_exec, &chars_of("#fce7f3"), Ghost(sv));
        let mut orange_keys_exec = keys4("orange", "red", "bright_orange", "bright_red");
        push_key(&mut orange_keys_exec, "color1");
        push_key(&mut orange_keys_exec, "color9");
        let orange_bg = pick_exec(&entries, &orange_keys_exec, &chars_of("#ffedd5"), Ghost(sv));
        proof {
            assert(seq!["pink"@, "magenta"@, "bright_magenta"@, "color5"@].push("color13"@)
                =~= pink_keys());
            assert(seq!["orange"@, "red"@, "bright_orange"@, "bright_red"@].push("color1"@).push(
                "color9"@,
            ) =~= orange_keys());
        }
        assert(yellow_bg@.subrange(0, yellow_bg@.len() as int) =~= yellow_bg@);
        assert(blue_bg@.subrange(0, blue_bg@.len() as int) =~= blue_bg@);
        assert(green_bg@.subrange(0, green_bg@.len() as int) =~= green_bg@);
        assert(pink_bg@.subrange(0, pink_bg@.len() as int) =~= pink_bg@);
        assert(orange_bg@.subrange(0, orange_bg@.len() as int) =~= orange_bg@);
        if !(crate::color::light_readable_range(&yellow_bg, 0, yellow_bg.len())
            && crate::color::light_readable_range(&blue_bg, 0, blue_bg.len())
            && crate::color::light_readable_range(&green_bg, 0, green_bg.len())
            && crate::color::light_readable_range(&pink_bg, 0, pink_bg.len())
            && crate::color::light_readable_range(&orange_bg, 0, orange_bg.len())) {
            return None;
        }
        let background = pick_exec(&entries, &keys1("background"), &chars_of("#1e1e2e"), Ghost(sv));
        let foreground = pick_exec(&entries, &keys1("foreground"), &chars_of("#cdd6f4"), Ghost(sv));
        let accent = pick_exec(&entries, &keys1("accent"), &chars_of("#cba6f7"), Ghost(sv));
        Some(
            ThemeColors {
                background: crate::text::string_from_chars(&background),
                foreground: crate::text::string_from_chars(&foreground),
                accent: crate::text::string_from_chars(&accent),
                yellow_fg: fg_exec(&yellow_bg),
                yellow_bg: crate::text::string_from_chars(&yellow_bg),
                blue_fg: fg_exec(&blue_bg),
                blue_bg: crate::text::string_from_chars(&blue_bg),
                green_fg: fg_exec(&green_bg),
                green_bg: crate::text::string_from_chars(&green_bg),
                pink_fg: fg_exec(&pink_bg),
                pink_bg: crate::text::string_from_chars(&pink_bg),
                orange_fg: fg_exec(&orange_bg),
                orange_bg: crate::text::string_from_chars(&orange_bg),
            },
        )
    }

    /// The theme that a `colors.toml` describes (see `parse_theme`).
    pub fn parse(content: &str) -> (res: Self)
        requires
            theme_readable(content@),
        ensures
            res@ == parse_theme(content@),
    {
        match Self::parse_checked(content) {
            Some(t) => t,
            None => {
                assert(false);
                Self::default_colors()
            },
        }
    }

    /// The theme given the text of the theme file, if it could be found and
    /// read; the built-in theme otherwise.
    pub fn load(content: Option<&str>) -> (res: Self)
        requires
            content matches Some(c) ==> theme_readable(c@),
        ensures
            res@ == (match content {
                Some(c) => parse_theme(c@),
                None => default_theme(),
            }),
    {
        match content {
            Some(c) => Self::parse(c),
            None => Self::default_colors(),
        }
    }
}

/// Each note's text colour follows its background: near-black on a light
/// background, near-white on a dark one.
pub proof fn lemma_text_colour_follows_background(content: Seq<char>)
    ensures
        parse_theme(content).yellow_fg == fg_for(parse_theme(content).yellow_bg),
        parse_theme(content).blue_fg == fg_for(parse_theme(content).blue_bg),
        parse_theme(content).green_fg == fg_for(parse_theme(content).green_bg),
        parse_theme(content).pink_fg == fg_for(parse_theme(content).pink_bg),
        parse_theme(content).orange_fg == fg_for(parse_theme(content).orange_bg),
        is_light(parse_theme(content).yellow_bg) ==> parse_theme(content).yellow_fg == "#1a1a1a"@,
        !is_light(parse_theme(content).yellow_bg) ==> parse_theme(content).yellow_fg == "#f8f9fa"@,
{
}

/// Adding a line that assigns nothing (blank, a comment, or without `=`)
/// to a theme file does not change the theme.
pub proof fn lemma_theme_ignores_inert_line(a: Seq<char>, b: Seq<char>)
    requires
        forall|i: int| 0 <= i < b.len() ==> b[i] != '\n',
        crate::themefile::parse_line(b) is None,
    ensures
        parse_theme(a + seq!['\n'] + b) == parse_theme(a),
{
    crate::themefile::lemma_inert_line(a, b);
}

/// A key assigned on a later line takes that line's value, whatever the
/// earlier lines assigned to it.
pub proof fn lemma_theme_later_line_wins(a: Seq<char>, b: Seq<char>, key: Seq<char>, value: Seq<char>)
    requires
        forall|i: int| 0 <= i < b.len() ==> b[i] != '\n',
        crate::themefile::parse_line(b) == Some((key, value)),
    ensures
        crate::themefile::lookup(theme_entries(a + seq!['\n'] + b), key) == Some(value),
{
    crate::themefile::lemma_theme_entries_concat(a, b);
    crate::themefile::lemma_split_lines_single(b);
    let eb = theme_entries(b);
    assert(seq![b].drop_last() =~= Seq::<Seq<char>>::empty());
    assert(seq![b].last() == b);
    assert(crate::themefile::entries_of(Seq::<Seq<char>>::empty()) =~= Seq::<(Seq<char>, Seq<char>)>::empty());
    assert(crate::themefile::entries_of(seq![b]) =~= crate::themefile::entries_of(seq![b].drop_last())
        + crate::themefile::option_seq(crate::themefile::parse_line(b)));
    assert(eb =~= seq![(key, value)]);
    crate::themefile::lemma_lookup_concat(theme_entries(a), eb, key);
    assert(eb.drop_last() =~= Seq::<(Seq<char>, Seq<char>)>::empty());
}

/// Where a later line assigns `background`, the theme's background is that
/// line's value.
pub proof fn lemma_background_from_last_line(a: Seq<char>, b: Seq<char>, value: Seq<char>)
    requires
        forall|i: int| 0 <= i < b.len() ==> b[i] != '\n',
        crate::themefile::parse_line(b) == Some(("background"@, value)),
    ensures
        parse_theme(a + seq!['\n'] + b).background == value,
{
    lemma_theme_later_line_wins(a, b, "background"@, value);
}

proof fn lemma_literal_ascii(s: Seq<char>)
    requires
        s.len() == 7,
        s[0] == '#',
        forall|i: int| 1 <= i < 7 ==> ('0' <= #[trigger] s[i] <= '9' || 'a' <= s[i] <= 'f'),
    ensures
        crate::color::all_ascii(s),
{
}

/// Every note background of an ASCII theme file is read from a colour code
/// that can be read: `parse` never panics on ASCII text.
pub proof fn lemma_ascii_theme_readable(content: Seq<char>)
    requires
        vstd::utf8::is_ascii_chars(content),
    ensures
        theme_readable(content),
{
    crate::color::lemma_is_ascii_chars(content);
    crate::themefile::lemma_theme_entries_ascii(content);
    let e = theme_entries(content);
    reveal_strlit("#fef3c7");
    reveal_strlit("#dbeafe");
    reveal_strlit("#d1fae5");
    reveal_strlit("#fce7f3");
    reveal_strlit("#ffedd5");
    lemma_literal_ascii("#fef3c7"@);
    lemma_literal_ascii("#dbeafe"@);
    lemma_literal_ascii("#d1fae5"@);
    lemma_literal_ascii("#fce7f3"@);
    lemma_literal_ascii("#ffedd5"@);
    crate::themefile::lemma_pick_ascii(e, yellow_keys(), "#fef3c7"@);
    crate::themefile::lemma_pick_ascii(e, blue_keys(), "#dbeafe"@);
    crate::themefile::lemma_pick_ascii(e, green_keys(), "#d1fae5"@);
    crate::themefile::lemma_pick_ascii(e, pink_keys(), "#fce7f3"@);
    crate::themefile::lemma_pick_ascii(e, orange_keys(), "#ffedd5"@);
    crate::color::lemma_ascii_light_readable(yellow_bg_of(content));
    crate::color::lemma_ascii_light_readable(blue_bg_of(content));
    crate::color::lemma_ascii_light_readable(green_bg_of(content));
    crate::color::lemma_ascii_light_readable(pink_bg_of(content));
    crate::color::lemma_ascii_light_readable(orange_bg_of(content));
}

/// On ASCII theme text, the theme is read without a panic and every note
/// gets near-black text on a light background and near-white text on a
/// dark one (a background that cannot be read counts as light).
pub proof fn lemma_ascii_theme_text_colours(content: Seq<char>)
    requires
        vstd::utf8::is_ascii_chars(content),
    ensures
        theme_readable(content),
        parse_theme(content).yellow_fg == (if is_light(parse_theme(content).yellow_bg) {
            "#1a1a1a"@
        } else {
            "#f8f9fa"@
        }),
        parse_theme(content).blue_fg == (if is_light(parse_theme(content).blue_bg) {
            "#1a1a1a"@
        } else {
            "#f8f9fa"@
        }),
        parse_theme(content).green_fg == (if is_light(parse_theme(content).green_bg) {
            "#1a1a1a"@
        } else {
            "#f8f9fa"@
        }),
        parse_theme(content).pink_fg == (if is_light(parse_theme(content).pink_bg) {
            "#1a1a1a"@
        } else {
            "#f8f9fa"@
        }),
        parse_theme(content).orange_fg == (if is_light(parse_theme(content).orange_bg) {
            "#1a1a1a"@
        } else {
            "#f8f9fa"@
        }),
{
    lemma_ascii_theme_readable(content);
}

/// The yellow note takes its background from `yellow`, else `bright_yellow`,
/// else the ANSI `color3`, else the bright `color11`, each by the last value
/// that the theme gives it; with none of them, the built-in pale yellow.
pub proof fn lemma_yellow_key_priority(content: Seq<char>)
    ensures
        lookup(theme_entries(content), "yellow"@) is Some
            ==> parse_theme(content).yellow_bg == lookup(theme_entries(content), "yellow"@)->0,
        lookup(theme_entries(content), "yellow"@) is None && lookup(theme_entries(content), "bright_yellow"@) is Some
            ==> parse_theme(content).yellow_bg == lookup(theme_entries(content), "bright_yellow"@)->0,
        lookup(theme_entries(content), "yellow"@) is None && lookup(theme_entries(content), "bright_yellow"@) is None && lookup(theme_entries(content), "color3"@) is Some
            ==> parse_theme(content).yellow_bg == lookup(theme_entries(content), "color3"@)->0,
        lookup(theme_entries(content), "yellow"@) is None && lookup(theme_entries(content), "bright_yellow"@) is None && lookup(theme_entries(content), "color3"@) is None && lookup(theme_entries(content), "color11"@) is Some
            ==> parse_theme(content).yellow_bg == lookup(theme_entries(content), "color11"@)->0,
        lookup(theme_entries(content), "yellow"@) is None && lookup(theme_entries(content), "bright_yellow"@) is None && lookup(theme_entries(content), "color3"@) is None && lookup(theme_entries(content), "color11"@) is None
            ==> parse_theme(content).yellow_bg == "#fef3c7"@,
{
    reveal_with_fuel(pick, 7);
}

/// The blue note takes its background from `blue`, else `bright_blue`,
/// else the ANSI `color4`, else the bright `color12`, each by the last value
/// that the theme gives it; with none of them, the built-in pale blue.
pub proof fn lemma_blue_key_priority(content: Seq<char>)
    ensures
        lookup(theme_entries(content), "blue"@) is Some
            ==> parse_theme(content).blue_bg == lookup(theme_entries(content), "blue"@)->0,
        lookup(theme_entries(content), "blue"@) is None && lookup(theme_entries(content), "bright_blue"@) is Some
            ==> parse_theme(content).blue_bg == lookup(theme_entries(content), "bright_blue"@)->0,
        lookup(theme_entries(content), "blue"@) is None && lookup(theme_entries(content), "bright_blue"@) is None && lookup(theme_entries(content), "color4"@) is Some
            ==> parse_theme(content).blue_bg == lookup(theme_entries(content), "color4"@)->0,
        lookup(theme_entries(content), "blue"@) is None && lookup(theme_entries(content), "bright_blue"@) is None && lookup(theme_entries(content), "color4"@) is None && lookup(theme_entries(content), "color12"@) is Some
            ==> parse_theme(content).blue_bg == lookup(theme_entries(content), "color12"@)->0,
        lookup(theme_entries(content), "blue"@) is None && lookup(theme_entries(content), "bright_blue"@) is None && lookup(theme_entries(content), "color4"@) is None && lookup(theme_entries(content), "color12"@) is None
            ==> parse_theme(content).blue_bg == "#dbeafe"@,
{
    reveal_with_fuel(pick, 7);
}

/// The green note takes its background from `green`, else `bright_green`,
/// else the ANSI `color2`, else the bright `color10`, each by the last value
/// that the theme gives it; with none of them, the built-in pale green.
pub proof fn lemma_green_key_priority(content: Seq<char>)
    ensures
        lookup(theme_entries(content), "green"@) is Some
            ==> parse_theme(content).green_bg == lookup(theme_entries(content), "green"@)->0,
        lookup(theme_entries(content), "green"@) is None && lookup(theme_entries(content), "bright_green"@) is Some
            ==> parse_theme(content).green_bg == lookup(theme_entries(content), "bright_green"@)->0,
        lookup(theme_entries(content), "green"@) is None && lookup(theme_entries(content), "bright_green"@) is None && lookup(theme_entries(content), "color2"@) is Some
            ==> parse_theme(content).green_bg == lookup(theme_entries(content), "color2"@)->0,
        lookup(theme_entries(content), "green"@) is None && lookup(theme_entries(content), "bright_green"@) is None && lookup(theme_entries(content), "color2"@) is None && lookup(theme_entries(content), "color10"@) is Some
            ==> parse_theme(content).green_bg == lookup(theme_entries(content), "color10"@)->0,
        lookup(theme_entries(content), "green"@) is None && lookup(theme_entries(content), "bright_green"@) is None && lookup(theme_entries(content), "color2"@) is None && lookup(theme_entries(content), "color10"@) is None
            ==> parse_theme(content).green_bg == "#d1fae5"@,
{
    reveal_with_fuel(pick, 7);
}

/// The pink note takes its background from `pink`, else `magenta`, else
/// `bright_magenta`, else the ANSI `color5`, else the bright `color13`, each
/// by the last value that the theme gives it; with none of them, the
/// built-in pale pink.
pub proof fn lemma_pink_key_priority(content: Seq<char>)
    ensures
        lookup(theme_entries(content), "pink"@) is Some
            ==> parse_theme(content).pink_bg == lookup(theme_entries(content), "pink"@)->0,
        lookup(theme_entries(content), "pink"@) is None && lookup(theme_entries(content), "magenta"@) is Some
            ==> parse_theme(content).pink_bg == lookup(theme_entries(content), "magenta"@)->0,
        lookup(theme_entries(content), "pink"@) is None && lookup(theme_entries(content), "magenta"@) is None && lookup(theme_entries(content), "bright_magenta"@) is Some
            ==> parse_theme(content).pink_bg == lookup(theme_entries(content), "bright_magenta"@)->0,
        lookup(theme_entries(content), "pink"@) is None && lookup(theme_entries(content), "magenta"@) is None && lookup(theme_entries(content), "bright_magenta"@) is None && lookup(theme_entries(content), "color5"@) is Some
            ==> parse_theme(content).pink_bg == lookup(theme_entries(content), "color5"@)->0,
        lookup(theme_entries(content), "pink"@) is None && lookup(theme_entries(content), "magenta"@) is None && lookup(theme_entries(content), "bright_magenta"@) is None && lookup(theme_entries(content), "color5"@) is None && lookup(theme_entries(content), "color13"@) is Some
            ==> parse_theme(content).pink_bg == lookup(theme_entries(content), "color13"@)->0,
        lookup(theme_entries(content), "pink"@) is None && lookup(theme_entries(content), "magenta"@) is None && lookup(theme_entries(content), "bright_magenta"@) is None && lookup(theme_entries(content), "color5"@) is None && lookup(theme_entries(content), "color13"@) is None
            ==> parse_theme(content).pink_bg == "#fce7f3"@,
{
    reveal_with_fuel(pick, 7);
}

/// The orange note takes its background from `orange`, else `red`, else
/// `bright_orange`, else `bright_red`, else the ANSI `color1`, else the
/// bright `color9`, each by the last value that the theme gives it; with
/// none of them, the built-in pale orange.
pub proof fn lemma_orange_key_priority(content: Seq<char>)
    ensures
        lookup(theme_entries(content), "orange"@) is Some
            ==> parse_theme(content).orange_bg == lookup(theme_entries(content), "orange"@)->0,
        lookup(theme_entries(content), "orange"@) is None && lookup(theme_entries(content), "red"@) is Some
            ==> parse_theme(content).orange_bg == lookup(theme_entries(content), "red"@)->0,
        lookup(theme_entries(content), "orange"@) is None && lookup(theme_entries(content), "red"@) is None && lookup(theme_entries(content), "bright_orange"@) is Some
            ==> parse_theme(content).orange_bg == lookup(theme_entries(content), "bright_orange"@)->0,
        lookup(theme_entries(content), "orange"@) is None && lookup(theme_entries(content), "red"@) is None && lookup(theme_entries(content), "bright_orange"@) is None && lookup(theme_entries(content), "bright_red"@) is Some
            ==> parse_theme(content).orange_bg == lookup(theme_entries(content), "bright_red"@)->0,
        lookup(theme_entries(content), "orange"@) is None && lookup(theme_entries(content), "red"@) is None && lookup(theme_entries(content), "bright_orange"@) is None && lookup(theme_entries(content), "bright_red"@) is None && lookup(theme_entries(content), "color1"@) is Some
            ==> parse_theme(content).orange_bg == lookup(theme_entries(content), "color1"@)->0,
        lookup(theme_entries(content), "orange"@) is None && lookup(theme_entries(content), "red"@) is None && lookup(theme_entries(content), "bright_orange"@) is None && lookup(theme_entries(content), "bright_red"@) is None && lookup(theme_entries(content), "color1"@) is None && lookup(theme_entries(content), "color9"@) is Some
            ==> parse_theme(content).orange_bg == lookup(theme_entries(content), "color9"@)->0,
        lookup(theme_entries(content), "orange"@) is None && lookup(theme_entries(content), "red"@) is None && lookup(theme_entries(content), "bright_orange"@) is None && lookup(theme_entries(content), "bright_red"@) is None && lookup(theme_entries(content), "color1"@) is None && lookup(theme_entries(content), "color9"@) is None
            ==> parse_theme(content).orange_bg == "#ffedd5"@,
{
    reveal_with_fuel(pick, 7);
}

} // verus!
