//! Start-up configuration from the command line.
use vstd::prelude::*;
use vstd::utf8::{decode_utf8, encode_utf8};

verus! {

/// Window settings chosen on the command line.
#[derive(Default, Debug, Clone, Copy, PartialEq, Eq)]
pub struct AppConfig {
    pub width: i32,
    pub height: i32,
    pub fullscreen: bool,
}

/// Whether `c` is an ASCII decimal digit.
pub open spec fn is_digit(c: char) -> bool {
    '0' <= c <= '9'
}

/// The number written by the decimal digits `s`.
pub open spec fn digits_value(s: Seq<char>) -> nat
    decreases s.len(),
{
    if s.len() == 0 {
        0
    } else {
        digits_value(s.drop_last()) * 10 + ((s.last() as u32) - ('0' as u32)) as nat
    }
}

/// `s` without a leading `+` or `-`.
pub open spec fn unsigned_part(s: Seq<char>) -> Seq<char> {
    if s.len() > 0 && (s[0] == '-' || s[0] == '+') {
        s.drop_first()
    } else {
        s
    }
}

/// Whether `s` is one or more decimal digits.
pub open spec fn is_decimal(s: Seq<char>) -> bool {
    s.len() > 0 && forall|i: int| 0 <= i < s.len() ==> is_digit(#[trigger] s[i])
}

/// What `i32::from_str` accepts: an optional `+` or `-`, then one or more
/// decimal digits, naming a value in the range of `i32`.
pub open spec fn parse_i32_spec(s: Seq<char>) -> Option<i32> {
    let body = unsigned_part(s);
    if !is_decimal(body) {
        None
    } else {
        let v: int = if s[0] == '-' {
            -digits_value(body)
        } else {
            digits_value(body) as int
        };
        if i32::MIN <= v <= i32::MAX {
            Some(v as i32)
        } else {
            None
        }
    }
}

/// The configuration after the arguments from index `i` on have been
/// applied to `cfg`: `--fullscreen` sets full screen; `--width` and
/// `--height` take the next argument as their value when there is one, and
/// keep the old value when it is not a number; anything else is skipped.
pub open spec fn apply_args(args: Seq<String>, i: nat, cfg: AppConfig) -> AppConfig
    decreases args.len() - i,
{
    if i >= args.len() {
        cfg
    } else if args[i as int]@ == "--fullscreen"@ {
        apply_args(args, i + 1, AppConfig { fullscreen: true, ..cfg })
    } else if args[i as int]@ == "--width"@ && i + 1 < args.len() {
        apply_args(
            args,
            i + 2,
            match parse_i32_spec(args[i + 1 as int]@) {
                Some(w) => AppConfig { width: w, ..cfg },
                None => cfg,
            },
        )
    } else if args[i as int]@ == "--height"@ && i + 1 < args.len() {
        apply_args(
            args,
            i + 2,
            match parse_i32_spec(args[i + 1 as int]@) {
                Some(h) => AppConfig { height: h, ..cfg },
                None => cfg,
            },
        )
    } else {
        apply_args(args, i + 1, cfg)
    }
}

/// Parsing depends only on the arguments from the current index on.
proof fn lemma_apply_args_suffix(
    a: Seq<String>,
    i: nat,
    b: Seq<String>,
    j: nat,
    cfg: AppConfig,
)
    requires
        i <= a.len(),
        j <= b.len(),
        a.skip(i as int) =~= b.skip(j as int),
    ensures
        apply_args(a, i, cfg) == apply_args(b, j, cfg),
    decreases a.len() - i,
{
    assert(a.skip(i as int).len() == b.skip(j as int).len());
    if i < a.len() {
        assert(a[i as int] == a.skip(i as int)[0]);
        assert(b[j as int] == b.skip(j as int)[0]);
        if i + 1 < a.len() {
            assert(a[i + 1 as int] == a.skip(i as int)[1]);
            assert(b[j + 1 as int] == b.skip(j as int)[1]);
        }
        assert(a.skip(i + 1 as int) =~= a.skip(i as int).skip(1));
        assert(b.skip(j + 1 as int) =~= b.skip(j as int).skip(1));
        if i + 2 <= a.len() {
            assert(a.skip(i + 2 as int) =~= a.skip(i as int).skip(2));
            assert(b.skip(j + 2 as int) =~= b.skip(j as int).skip(2));
        }
        let c1 = AppConfig { fullscreen: true, ..cfg };
        lemma_apply_args_suffix(a, i + 1, b, j + 1, c1);
        lemma_apply_args_suffix(a, i + 1, b, j + 1, cfg);
        if i + 2 <= a.len() {
            match parse_i32_spec(a[i + 1 as int]@) {
                Some(v) => {
                    lemma_apply_args_suffix(a, i + 2, b, j + 2, AppConfig { width: v, ..cfg });
                    lemma_apply_args_suffix(a, i + 2, b, j + 2, AppConfig { height: v, ..cfg });
                },
                None => {
                    lemma_apply_args_suffix(a, i + 2, b, j + 2, cfg);
                },
            }
        }
    }
}

/// Once full screen is on it stays on, and it changes nothing else.
proof fn lemma_apply_args_fullscreen(a: Seq<String>, i: nat, cfg: AppConfig)
    ensures
        apply_args(a, i, (AppConfig { fullscreen: true, ..cfg })) == (AppConfig {
            fullscreen: true,
            ..apply_args(a, i, cfg)
        }),
    decreases a.len() - i,
{
    if i < a.len() {
        let f = AppConfig { fullscreen: true, ..cfg };
        lemma_apply_args_fullscreen(a, i + 1, cfg);
        lemma_apply_args_fullscreen(a, i + 1, f);
        if i + 1 < a.len() {
            match parse_i32_spec(a[i + 1 as int]@) {
                Some(v) => {
                    lemma_apply_args_fullscreen(a, i + 2, AppConfig { width: v, ..cfg });
                    lemma_apply_args_fullscreen(a, i + 2, AppConfig { height: v, ..cfg });
                },
                None => {
                    lemma_apply_args_fullscreen(a, i + 2, cfg);
                },
            }
        }
    }
}

/// `--fullscreen` takes no value: putting it at the place where the next
/// option is read turns full screen on and leaves everything the other
/// arguments set as it was; the argument after it is read as an option.
pub proof fn lemma_fullscreen_takes_no_value(
    args: Seq<String>,
    i: nat,
    f: String,
    cfg: AppConfig,
)
    requires
        i <= args.len(),
        f@ == "--fullscreen"@,
    ensures
        apply_args(args.insert(i as int, f), i, cfg) == (AppConfig {
            fullscreen: true,
            ..apply_args(args, i, cfg)
        }),
{
    let a = args.insert(i as int, f);
    assert(a[i as int] == f);
    assert(a.skip(i + 1 as int) =~= args.skip(i as int));
    let c1 = AppConfig { fullscreen: true, ..cfg };
    lemma_apply_args_suffix(a, i + 1, args, i, c1);
    lemma_apply_args_fullscreen(args, i, cfg);
}

/// The value that `--width` or `--height` gives to a field that holds `old`:
/// the number `v` writes, or `old` when `v` is not a number.
pub open spec fn option_value(v: Seq<char>, old: i32) -> i32 {
    match parse_i32_spec(v) {
        Some(x) => x,
        None => old,
    }
}

/// `--width` and `--height` take exactly one value: putting one of them with
/// its value at the place where the next option is read sets that field from
/// the value (or keeps it, when the value is not a number), changes nothing
/// else, and the argument after the value is read as an option.
pub proof fn lemma_size_option_takes_one_value(
    args: Seq<String>,
    i: nat,
    opt: String,
    v: String,
    cfg: AppConfig,
)
    requires
        i <= args.len(),
        opt@ == "--width"@ || opt@ == "--height"@,
    ensures
        opt@ == "--width"@ ==> apply_args(args.insert(i as int, v).insert(i as int, opt), i, cfg)
            == apply_args(args, i, (AppConfig { width: option_value(v@, cfg.width), ..cfg })),
        opt@ == "--height"@ ==> apply_args(args.insert(i as int, v).insert(i as int, opt), i, cfg)
            == apply_args(args, i, (AppConfig { height: option_value(v@, cfg.height), ..cfg })),
{
    let a = args.insert(i as int, v).insert(i as int, opt);
    assert(a[i as int] == opt);
    assert(a[i + 1 as int] == v);
    assert(a.skip(i + 2 as int) =~= args.skip(i as int));
    reveal_strlit("--width");
    reveal_strlit("--height");
    reveal_strlit("--fullscreen");
    assert(opt@ != "--fullscreen"@) by {
        if opt@ == "--width"@ {
            assert(opt@[2] == 'w');
        } else {
            assert(opt@[2] == 'h');
        }
    }
    assert(opt@ == "--height"@ ==> opt@ != "--width"@) by {
        if opt@ == "--height"@ {
            assert(opt@[2] == 'h');
        }
    }
    let cw = AppConfig { width: option_value(v@, cfg.width), ..cfg };
    let ch = AppConfig { height: option_value(v@, cfg.height), ..cfg };
    lemma_apply_args_suffix(a, i + 2, args, i, cw);
    lemma_apply_args_suffix(a, i + 2, args, i, ch);
    lemma_apply_args_suffix(a, i + 2, args, i, cfg);
}

/// The configuration before any argument: 0 by 0, windowed.
pub open spec fn default_config() -> AppConfig {
    AppConfig { width: 0, height: 0, fullscreen: false }
}

/// Whether two strings hold the same characters.
pub fn str_eq(a: &str, b: &str) -> (r: bool)
    ensures
        r == (a@ == b@),
{
    broadcast use vstd::utf8::encode_utf8_decode_utf8;

    let x = a.as_bytes();
    let y = b.as_bytes();
    if x.len() != y.len() {
        proof {
            if a@ == b@ {
                assert(encode_utf8(a@) == encode_utf8(b@));
            }
        }
        return false;
    }
    let mut i: usize = 0;
    while i < x.len()
        invariant
            x@ == encode_utf8(a@),
            y@ == encode_utf8(b@),
            x@.len() == y@.len(),
            i <= x@.len(),
            forall|k: int| 0 <= k < i ==> x@[k] == y@[k],
        decreases x@.len() - i,
    {
        if x[i] != y[i] {
            proof {
                if a@ == b@ {
                    assert(encode_utf8(a@) == encode_utf8(b@));
                }
            }
            return false;
        }
        i = i + 1;
    }
    assert(x@ =~= y@);
    assert(decode_utf8(encode_utf8(a@)) == a@);
    assert(decode_utf8(encode_utf8(b@)) == b@);
    true
}

/// The value of a decimal number with an optional sign, as `i32::from_str`
/// reads it; `None` where that fails.
pub fn parse_i32(s: &str) -> (r: Option<i32>)
    ensures
        r == parse_i32_spec(s@),
{
    let ghost chars = s@;
    let mut neg = false;
    let mut first = true;
    let mut seen_sign = false;
    let mut empty_body = true;
    let mut all_digits = true;
    let mut acc: i64 = 0;
    let mut big = false;
    let ghost mut body: Seq<char> = Seq::empty();
    for c in it: s.chars()
        invariant
            it.seq() == chars,
            chars == s@,
            first == (it.index() == 0),
            neg == (it.index() > 0 && chars[0] == '-'),
            seen_sign == (it.index() > 0 && (chars[0] == '-' || chars[0] == '+')),
            body == if seen_sign {
                chars.take(it.index() as int).drop_first()
            } else {
                chars.take(it.index() as int)
            },
            empty_body == (body.len() == 0),
            all_digits == (forall|k: int| 0 <= k < body.len() ==> is_digit(#[trigger] body[k])),
            all_digits && !big ==> acc == digits_value(body),
            all_digits && big ==> digits_value(body) > 0x8000_0000,
            0 <= acc <= 0x8000_0000,
    {
        let ghost idx = it.index();
        if first && (c == '-' || c == '+') {
            neg = c == '-';
            seen_sign = true;
            first = false;
            proof {
                body = chars.take(idx + 1).drop_first();
                assert(body =~= Seq::<char>::empty());
            }
        } else {
            first = false;
            let ghost old_body = body;
            proof {
                body = body.push(c);
                if seen_sign {
                    assert(body =~= chars.take(idx + 1).drop_first());
                } else {
                    assert(body =~= chars.take(idx + 1));
                }
                assert(body.drop_last() =~= old_body);
            }
            empty_body = false;
            if '0' <= c && c <= '9' {
                if all_digits && !big {
                    let d = (c as u32 - '0' as u32) as i64;
                    let next = acc * 10 + d;
                    if next > 0x8000_0000 {
                        big = true;
                    } else {
                        acc = next;
                    }
                }
                proof {
                    if all_digits && big {
                        assert(digits_value(body) >= digits_value(old_body));
                    }
                }
            } else {
                all_digits = false;
                assert(!is_digit(body[body.len() - 1]));
            }
        }
    }
    assert(chars.take(chars.len() as int) =~= chars);
    assert(body == unsigned_part(chars));
    if empty_body {
        return None;
    }
    if !all_digits {
        proof {
            let k = choose|k: int| 0 <= k < body.len() && !is_digit(#[trigger] body[k]);
            assert(!is_digit(body[k]));
        }
        return None;
    }
    if big {
        return None;
    }
    if neg {
        Some((-acc) as i32)
    } else if acc <= 0x7FFF_FFFF {
        Some(acc as i32)
    } else {
        None
    }
}

impl AppConfig {
    /// The configuration that the program's arguments choose; `args[0]`, the
    /// program's name, is skipped.
    pub fn parse_args(args: &[String]) -> (cfg: Self)
        ensures
            cfg == apply_args(args@, 1, default_config()),
    {
        let mut config = AppConfig { width: 0, height: 0, fullscreen: false };
        let mut i: usize = 1;
        while i < args.len()
            invariant
                apply_args(args@, i as nat, config) == apply_args(args@, 1, default_config()),
            decreases args@.len() - i,
        {
            let a = args[i].as_str();
            if str_eq(a, "--fullscreen") {
                config.fullscreen = true;
            } else if str_eq(a, "--width") && i + 1 < args.len() {
                if let Some(w) = parse_i32(args[i + 1].as_str()) {
                    config.width = w;
                }
                i = i + 1;
            } else if str_eq(a, "--height") && i + 1 < args.len() {
                if let Some(h) = parse_i32(args[i + 1].as_str()) {
                    config.height = h;
                }
                i = i + 1;
            }
            i = i + 1;
        }
        config
    }
}

/// Sets up the joypad action mappings; there are none to define.
pub fn define_joypad_action_mappings() {
}

/// The program's entry point: reads the configuration from `args`, sets up
/// the joypad mappings and returns the exit code 0.
pub fn run_app_main(args: Vec<String>) -> (code: i32)
    ensures
        code == 0,
{
    let _config = AppConfig::parse_args(args.as_slice());
    define_joypad_action_mappings();
    0
}

} // verus!
