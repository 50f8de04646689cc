use vstd::prelude::*;

verus! {

/// Terminal colour numbers of the eight standard curses colours.
pub const COLOR_BLACK: i16 = 0;
pub const COLOR_RED: i16 = 1;
pub const COLOR_GREEN: i16 = 2;
pub const COLOR_YELLOW: i16 = 3;
pub const COLOR_BLUE: i16 = 4;
pub const COLOR_MAGENTA: i16 = 5;
pub const COLOR_CYAN: i16 = 6;
pub const COLOR_WHITE: i16 = 7;

/// Colour used for rain when none, or an unknown one, is named.
pub const DEFAULT_RAIN_COLOR: i16 = COLOR_CYAN;

/// Colour used for lightning when none, or an unknown one, is named.
pub const DEFAULT_LIGHTNING_COLOR: i16 = COLOR_YELLOW;

/// One row of the palette: a colour name and its terminal colour number.
#[derive(Clone)]
pub struct ColorMapEntry(pub &'static str, pub i16);

/// The palette as a mathematical table, in lookup order.
pub open spec fn palette() -> Seq<(Seq<char>, i16)> {
    seq![
        ("black"@, COLOR_BLACK),
        ("red"@, COLOR_RED),
        ("green"@, COLOR_GREEN),
        ("yellow"@, COLOR_YELLOW),
        ("blue"@, COLOR_BLUE),
        ("magenta"@, COLOR_MAGENTA),
        ("cyan"@, COLOR_CYAN),
        ("white"@, COLOR_WHITE),
    ]
}

/// The colour of the first palette row at or after `i` named `name`.
pub open spec fn lookup_from(t: Seq<(Seq<char>, i16)>, name: Seq<char>, i: int) -> Option<i16>
    decreases t.len() - i,
{
    if i < 0 || i >= t.len() {
        None
    } else if t[i].0 == name {
        Some(t[i].1)
    } else {
        lookup_from(t, name, i + 1)
    }
}

/// The colour that the palette gives to `name`, if any.
pub open spec fn spec_color_code(name: Seq<char>) -> Option<i16> {
    lookup_from(palette(), name, 0)
}

/// The colour chosen for `name`, or `default` where the palette lacks it.
pub open spec fn spec_resolve_color(name: Seq<char>, default: i16) -> i16 {
    match spec_color_code(name) {
        Some(c) => c,
        None => default,
    }
}

/// The palette, in lookup order.
pub fn color_map() -> (r: Vec<ColorMapEntry>)
    ensures
        r@.len() == palette().len(),
        forall|i: int| 0 <= i < r@.len() ==> (#[trigger] r@[i]).0@ == palette()[i].0 && r@[i].1 == palette()[i].1,
{
    proof {
        reveal_strlit("black");
        reveal_strlit("red");
        reveal_strlit("green");
        reveal_strlit("yellow");
        reveal_strlit("blue");
        reveal_strlit("magenta");
        reveal_strlit("cyan");
        reveal_strlit("white");
    }
    let r = vec![
        ColorMapEntry("black", COLOR_BLACK),
        ColorMapEntry("red", COLOR_RED),
        ColorMapEntry("green", COLOR_GREEN),
        ColorMapEntry("yellow", COLOR_YELLOW),
        ColorMapEntry("blue", COLOR_BLUE),
        ColorMapEntry("magenta", COLOR_MAGENTA),
        ColorMapEntry("cyan", COLOR_CYAN),
        ColorMapEntry("white", COLOR_WHITE),
    ];
    r
}

/// Whether two strings hold the same characters.
fn same_text(a: &str, b: &str) -> (r: bool)
    ensures
        r == (a@ == b@),
{
    let a_owned = a.to_owned();
    let b_owned = b.to_owned();
    a_owned == b_owned
}

/// Looks `name` up in the palette, first match wins.
pub fn color_code(name: &str) -> (r: Option<i16>)
    ensures
        r == spec_color_code(name@),
{
    let table = color_map();
    let mut i: usize = 0;
    while i < table.len()
        invariant
            i <= table@.len(),
            table@.len() == palette().len(),
            forall|k: int| 0 <= k < table@.len() ==> (#[trigger] table@[k]).0@ == palette()[k].0 && table@[k].1 == palette()[k].1,
            lookup_from(palette(), name@, 0) == lookup_from(palette(), name@, i as int),
        decreases table@.len() - i,
    {
        let entry = &table[i];
        if same_text(entry.0, name) {
            return Some(entry.1);
        }
        i += 1;
    }
    None
}

/// The colour chosen for `name`, falling back to `default` for a name
/// outside the palette.
pub fn resolve_color(name: &str, default: i16) -> (r: i16)
    ensures
        r == spec_resolve_color(name@, default),
{
    match color_code(name) {
        Some(c) => c,
        None => default,
    }
}

/// The value given to `flag` in `args`, from index `i` on: the argument right
/// after the first occurrence of `flag`, or `default` where `flag` is absent
/// or is the last argument.
pub open spec fn flag_value_from(args: Seq<String>, flag: Seq<char>, default: Seq<char>, i: int) -> Seq<char>
    decreases args.len() - i,
{
    if i < 0 || i >= args.len() {
        default
    } else if args[i]@ == flag {
        if i + 1 < args.len() {
            args[i + 1]@
        } else {
            default
        }
    } else {
        flag_value_from(args, flag, default, i + 1)
    }
}

/// Reads the value of a command-line option such as `--rain-color <name>`:
/// the argument after the first `flag`, or `default` where `flag` is missing
/// or has nothing after it.
pub fn parse_color_arg(args: &[String], flag: &str, default: &str) -> (r: String)
    ensures
        r@ == flag_value_from(args@, flag@, default@, 0),
{
    let flag_owned = flag.to_owned();
    let mut i: usize = 0;
    while i < args.len()
        invariant
            i <= args@.len(),
            flag_owned@ == flag@,
            flag_value_from(args@, flag@, default@, 0) == flag_value_from(args@, flag@, default@, i as int),
        decreases args@.len() - i,
    {
        if args[i] == flag_owned {
            if i + 1 < args.len() {
                return args[i + 1].clone();
            }
            return default.to_owned();
        }
        i += 1;
    }
    default.to_owned()
}

} // verus!
