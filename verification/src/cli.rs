//! The label printing options: from the `AMSTOCK_PRINTER_*` environment
//! variables, then from the command line, whose flags take precedence.
use vstd::prelude::*;
use crate::printing::{PrintMode, debug_text, mode_arg};
use crate::text::{concat2, concat3, owned, parse_unsigned, parse_unsigned_text};
use crate::validation::same_text;
use crate::auth::{bool_text, parse_bool};

verus! {

/// The help text.
pub const HELP: &'static str = "Amstock 家用物资管理后端\n\n\
         标签选项：\n\
           --print-mode <preview|printer>   生成并打开 PNG，或连接真实打印机\n\
           --printer-python <PATH>          Python 解释器路径\n\
           --printer-script <PATH>          Rust/Python 桥接脚本路径\n\
           --label-preview-dir <PATH>       PNG 输出目录\n\
           --printer-host <HOST>            打印机地址（默认 192.168.31.114）\n\
           --printer-port <PORT>            打印机端口（默认 9100）\n\
           --printer-timeout <SECONDS>      网络超时（默认 3）\n\
           --no-open-label-preview          生成预览但不调用系统看图程序\n\
           --printer-no-cut                 真实打印后不切纸\n";

/// The bit pattern of the binary64 number 3.0, the default timeout.
pub const DEFAULT_TIMEOUT_BITS: u64 = 0x4008_0000_0000_0000;

/// The label printing options. Paths are kept as text; the timeout is the
/// bit pattern of a binary64 number of seconds.
#[derive(Debug)]
pub struct Args {
    pub print_mode: PrintMode,
    pub printer_python: Option<String>,
    pub printer_script: Option<String>,
    pub label_preview_dir: Option<String>,
    pub printer_host: String,
    pub printer_port: u16,
    pub printer_timeout_bits: u64,
    pub no_open_label_preview: bool,
    pub printer_no_cut: bool,
}

/// The options as values.
pub struct ArgsView {
    pub print_mode: PrintMode,
    pub printer_python: Option<Seq<char>>,
    pub printer_script: Option<Seq<char>>,
    pub label_preview_dir: Option<Seq<char>>,
    pub printer_host: Seq<char>,
    pub printer_port: u16,
    pub printer_timeout_bits: u64,
    pub no_open_label_preview: bool,
    pub printer_no_cut: bool,
}

pub open spec fn opt_text(s: Option<String>) -> Option<Seq<char>> {
    match s {
        Some(t) => Some(t@),
        None => None,
    }
}

impl Args {
    pub open spec fn view_of(&self) -> ArgsView {
        ArgsView {
            print_mode: self.print_mode,
            printer_python: opt_text(self.printer_python),
            printer_script: opt_text(self.printer_script),
            label_preview_dir: opt_text(self.label_preview_dir),
            printer_host: self.printer_host@,
            printer_port: self.printer_port,
            printer_timeout_bits: self.printer_timeout_bits,
            no_open_label_preview: self.no_open_label_preview,
            printer_no_cut: self.printer_no_cut,
        }
    }
}

/// What the command line asks for: the help text, the version, or running
/// the service with the given options.
#[derive(Debug)]
pub enum ArgsOutcome {
    Help,
    Version,
    Run(Args),
}

/// The defaults: preview mode, no paths, printer `192.168.31.114:9100`,
/// three seconds of timeout, previews opened and paper cut.
pub open spec fn default_args() -> ArgsView {
    ArgsView {
        print_mode: PrintMode::Preview,
        printer_python: None,
        printer_script: None,
        label_preview_dir: None,
        printer_host: "192.168.31.114"@,
        printer_port: 9100,
        printer_timeout_bits: DEFAULT_TIMEOUT_BITS,
        no_open_label_preview: false,
        printer_no_cut: false,
    }
}

/// The printer settings of the environment: `AMSTOCK_PRINTER_ENABLED`,
/// `AMSTOCK_PRINTER_HOST`, `AMSTOCK_PRINTER_PORT` and
/// `AMSTOCK_PRINTER_TIMEOUT`; `None` where a variable is unset or not
/// Unicode. `timeout_reading` is the bit pattern of the binary64 number that
/// the timeout reads as, when it reads as one.
#[derive(Debug)]
pub struct PrinterEnv {
    pub enabled: Option<String>,
    pub host: Option<String>,
    pub port: Option<String>,
    pub timeout: Option<String>,
    pub timeout_reading: Option<u64>,
}

/// The value of a variable; an empty one counts as unset.
pub open spec fn env_value(v: Option<String>) -> Option<Seq<char>> {
    match v {
        Some(s) => if s@.len() > 0 {
            Some(s@)
        } else {
            None
        },
        None => None,
    }
}

/// The defaults with the printer settings of `env` applied: the mode from
/// `AMSTOCK_PRINTER_ENABLED` (a boolean: the printer when true, the preview
/// when false), then the host, the port and the timeout. The first invalid
/// value is reported.
pub open spec fn env_args(env: PrinterEnv) -> Result<ArgsView, Seq<char>> {
    let d = default_args();
    let mode: Result<PrintMode, Seq<char>> = match env_value(env.enabled) {
        None => Ok(d.print_mode),
        Some(v) => match bool_text(v) {
            Some(true) => Ok(PrintMode::Printer),
            Some(false) => Ok(PrintMode::Preview),
            None => Err("无效的布尔值："@ + v),
        },
    };
    let host = match env_value(env.host) {
        Some(h) => h,
        None => d.printer_host,
    };
    let port: Result<u16, Seq<char>> = match env_value(env.port) {
        None => Ok(d.printer_port),
        Some(v) => match parse_unsigned(v, 65535) {
            Some(n) => if n == 0 {
                Err("AMSTOCK_PRINTER_PORT 必须是 1–65535 的整数"@)
            } else {
                Ok(n as u16)
            },
            None => Err("AMSTOCK_PRINTER_PORT 必须是 1–65535 的整数"@),
        },
    };
    let timeout: Result<u64, Seq<char>> = match env_value(env.timeout) {
        None => Ok(d.printer_timeout_bits),
        Some(_) => match env.timeout_reading {
            None => Err("AMSTOCK_PRINTER_TIMEOUT 必须是秒数"@),
            Some(bits) => if positive_finite(bits) {
                Ok(bits)
            } else {
                Err("AMSTOCK_PRINTER_TIMEOUT 必须大于 0"@)
            },
        },
    };
    match (mode, port, timeout) {
        (Err(m), _, _) => Err(m),
        (Ok(_), Err(m), _) => Err(m),
        (Ok(_), Ok(_), Err(m)) => Err(m),
        (Ok(md), Ok(pt), Ok(t)) => Ok(
            ArgsView { print_mode: md, printer_host: host, printer_port: pt, printer_timeout_bits: t, ..d },
        ),
    }
}

/// What the environment and the command line `args` give together.
pub open spec fn configured(env: PrinterEnv, args: Seq<Seq<char>>, readings: Seq<Option<u64>>) -> ArgsResult {
    match env_args(env) {
        Err(m) => ArgsResult::Fail(m),
        Ok(st) => read_args(args, readings, 0, st),
    }
}

fn env_text(v: &Option<String>) -> (r: Option<&str>)
    ensures
        match env_value(*v) {
            Some(t) => r matches Some(s) && s@ == t,
            None => r is None,
        },
{
    match v {
        Some(s) => if s.as_str().is_empty() {
            None
        } else {
            Some(s.as_str())
        },
        None => None,
    }
}

/// Whether the binary64 number with bit pattern `bits` is finite and greater
/// than zero: its sign is clear, its exponent field is not all ones, and it is
/// not zero.
pub open spec fn positive_finite(bits: u64) -> bool {
    let exponent = (bits / 0x10_0000_0000_0000) % 0x800;
    bits / 0x8000_0000_0000_0000 == 0 && exponent != 0x7ff && bits != 0
}

pub fn is_positive_finite(bits: u64) -> (r: bool)
    ensures
        r == positive_finite(bits),
{
    let exponent = (bits / 0x10_0000_0000_0000) % 0x800;
    bits / 0x8000_0000_0000_0000 == 0 && exponent != 0x7ff && bits != 0
}

/// The options that take a value.
pub open spec fn takes_value(a: Seq<char>) -> bool {
    a == "--print-mode"@ || a == "--printer-python"@ || a == "--printer-script"@ || a
        == "--label-preview-dir"@ || a == "--printer-host"@ || a == "--printer-port"@ || a
        == "--printer-timeout"@
}

pub open spec fn mode_named(v: Seq<char>) -> Option<PrintMode> {
    if v == "preview"@ {
        Some(PrintMode::Preview)
    } else if v == "printer"@ {
        Some(PrintMode::Printer)
    } else {
        None
    }
}

/// Option `a` with value `v` applied to `st`; `reading` is the binary64
/// number `v` reads as, if it reads as one.
pub open spec fn apply_option(a: Seq<char>, v: Seq<char>, reading: Option<u64>, st: ArgsView) -> Result<ArgsView, Seq<char>> {
    if a == "--print-mode"@ {
        match mode_named(v) {
            Some(m) => Ok(ArgsView { print_mode: m, ..st }),
            None => Err("未知打印模式 "@ + debug_text(v) + "，可选值为 preview、printer"@),
        }
    } else if a == "--printer-python"@ {
        Ok(ArgsView { printer_python: Some(v), ..st })
    } else if a == "--printer-script"@ {
        Ok(ArgsView { printer_script: Some(v), ..st })
    } else if a == "--label-preview-dir"@ {
        Ok(ArgsView { label_preview_dir: Some(v), ..st })
    } else if a == "--printer-host"@ {
        Ok(ArgsView { printer_host: v, ..st })
    } else if a == "--printer-port"@ {
        match parse_unsigned(v, 65535) {
            Some(n) => Ok(ArgsView { printer_port: n as u16, ..st }),
            None => Err("--printer-port 必须是 1–65535 的整数"@),
        }
    } else {
        match reading {
            Some(bits) => Ok(ArgsView { printer_timeout_bits: bits, ..st }),
            None => Err("--printer-timeout 必须是秒数"@),
        }
    }
}

/// What the command line gives once every argument is read: the timeout
/// must be finite and positive, and the port not zero.
pub open spec fn finish(st: ArgsView) -> ArgsResult {
    if !positive_finite(st.printer_timeout_bits) {
        ArgsResult::Fail("--printer-timeout 必须大于 0"@)
    } else if st.printer_port == 0 {
        ArgsResult::Fail("--printer-port 必须是 1–65535 的整数"@)
    } else {
        ArgsResult::Run(st)
    }
}

/// The outcome of reading `args` from index `i` on, with options `st` so
/// far.
pub open spec fn read_args(args: Seq<Seq<char>>, readings: Seq<Option<u64>>, i: nat, st: ArgsView) -> ArgsResult
    decreases args.len() - i,
{
    if i >= args.len() {
        finish(st)
    } else {
        let a = args[i as int];
        if a == "--help"@ || a == "-h"@ {
            ArgsResult::Help
        } else if a == "--version"@ || a == "-V"@ {
            ArgsResult::Version
        } else if takes_value(a) {
            if i + 1 >= args.len() {
                ArgsResult::Fail(a + " 缺少参数值"@)
            } else {
                match apply_option(a, args[i + 1 as int], readings[i + 1 as int], st) {
                    Ok(st2) => read_args(args, readings, i + 2, st2),
                    Err(m) => ArgsResult::Fail(m),
                }
            }
        } else if a == "--no-open-label-preview"@ {
            read_args(args, readings, i + 1, ArgsView { no_open_label_preview: true, ..st })
        } else if a == "--printer-no-cut"@ {
            read_args(args, readings, i + 1, ArgsView { printer_no_cut: true, ..st })
        } else {
            ArgsResult::Fail("未知启动参数："@ + a + "\n\n"@ + HELP@)
        }
    }
}

/// The outcome of a command line, as values.
pub enum ArgsResult {
    Help,
    Version,
    Run(ArgsView),
    Fail(Seq<char>),
}

pub open spec fn texts(v: Seq<String>) -> Seq<Seq<char>> {
    v.map_values(|s: String| s@)
}

/// `r` is what `expected` says.
pub open spec fn outcome_is(r: Result<ArgsOutcome, String>, expected: ArgsResult) -> bool {
    match expected {
        ArgsResult::Help => r matches Ok(ArgsOutcome::Help),
        ArgsResult::Version => r matches Ok(ArgsOutcome::Version),
        ArgsResult::Run(v) => match r {
            Ok(ArgsOutcome::Run(a)) => a.view_of() == v,
            _ => false,
        },
        ArgsResult::Fail(m) => match r {
            Err(s) => s@ == m,
            _ => false,
        },
    }
}

fn copy_text(s: &String) -> (r: String)
    ensures
        r@ == s@,
{
    s.clone()
}

/// The option names differ from one another.
proof fn lemma_option_names_distinct()
    ensures
        "-h"@ != "-V"@,
        "--printer-python"@ != "--printer-script"@,
        "--printer-python"@ != "--printer-no-cut"@,
        "--printer-script"@ != "--printer-no-cut"@,
        "--printer-host"@ != "--printer-port"@,
        "--help"@.len() == 6,
        "-h"@.len() == 2,
        "--version"@.len() == 9,
        "-V"@.len() == 2,
        "--print-mode"@.len() == 12,
        "--printer-python"@.len() == 16,
        "--printer-script"@.len() == 16,
        "--label-preview-dir"@.len() == 19,
        "--printer-host"@.len() == 14,
        "--printer-port"@.len() == 14,
        "--printer-timeout"@.len() == 17,
        "--no-open-label-preview"@.len() == 23,
        "--printer-no-cut"@.len() == 16,
        "preview"@ != "printer"@,
{
    reveal_strlit("--help");
    reveal_strlit("-h");
    reveal_strlit("--version");
    reveal_strlit("-V");
    reveal_strlit("--print-mode");
    reveal_strlit("--printer-python");
    reveal_strlit("--printer-script");
    reveal_strlit("--label-preview-dir");
    reveal_strlit("--printer-host");
    reveal_strlit("--printer-port");
    reveal_strlit("--printer-timeout");
    reveal_strlit("--no-open-label-preview");
    reveal_strlit("--printer-no-cut");
    reveal_strlit("preview");
    reveal_strlit("printer");
    assert("-h"@[1] != "-V"@[1]);
    assert("--printer-python"@[10] != "--printer-script"@[10]);
    assert("--printer-python"@[10] != "--printer-no-cut"@[10]);
    assert("--printer-script"@[10] != "--printer-no-cut"@[10]);
    assert("--printer-host"@[10] != "--printer-port"@[10]);
    assert("preview"@[3] != "printer"@[3]);
}

impl Args {
    pub fn help() -> (s: &'static str)
        ensures
            s@ == HELP@,
    {
        HELP
    }

    /// The defaults with the printer settings of `env` applied.
    fn from_env(env: &PrinterEnv) -> (r: Result<Args, String>)
        ensures
            r matches Ok(a) ==> env_args(*env) == Ok::<ArgsView, Seq<char>>(a.view_of()),
            r matches Err(m) ==> env_args(*env) == Err::<ArgsView, Seq<char>>(m@),
    {
        proof {
            reveal_strlit("192.168.31.114");
        }
        let print_mode = match env_text(&env.enabled) {
            None => PrintMode::Preview,
            Some(v) => match parse_bool(v) {
                Ok(true) => PrintMode::Printer,
                Ok(false) => PrintMode::Preview,
                Err(e) => return Err(e.message),
            },
        };
        let printer_host = match env_text(&env.host) {
            Some(h) => owned(h),
            None => owned("192.168.31.114"),
        };
        let printer_port: u16 = match env_text(&env.port) {
            None => 9100,
            Some(v) => match parse_unsigned_text(v, 65535) {
                Some(n) => {
                    if n == 0 {
                        return Err(owned("AMSTOCK_PRINTER_PORT 必须是 1–65535 的整数"));
                    }
                    n as u16
                },
                None => return Err(owned("AMSTOCK_PRINTER_PORT 必须是 1–65535 的整数")),
            },
        };
        let printer_timeout_bits: u64 = match env_text(&env.timeout) {
            None => DEFAULT_TIMEOUT_BITS,
            Some(_) => match env.timeout_reading {
                None => return Err(owned("AMSTOCK_PRINTER_TIMEOUT 必须是秒数")),
                Some(bits) => {
                    if !is_positive_finite(bits) {
                        return Err(owned("AMSTOCK_PRINTER_TIMEOUT 必须大于 0"));
                    }
                    bits
                },
            },
        };
        Ok(
            Args {
                print_mode,
                printer_python: None,
                printer_script: None,
                label_preview_dir: None,
                printer_host,
                printer_port,
                printer_timeout_bits,
                no_open_label_preview: false,
                printer_no_cut: false,
            },
        )
    }

    /// Reads the printer settings of `env` and then the command line
    /// `arguments` (without the program name), whose flags take precedence.
    /// `readings[i]` is the bit pattern of the binary64 number that
    /// `arguments[i]` reads as, when it reads as one.
    pub fn parse(arguments: &Vec<String>, readings: &Vec<Option<u64>>, env: &PrinterEnv) -> (r: Result<ArgsOutcome, String>)
        requires
            readings.len() == arguments.len(),
        ensures
            outcome_is(r, configured(*env, texts(arguments@), readings@)),
    {
        let mut parsed = match Args::from_env(env) {
            Ok(a) => a,
            Err(m) => return Err(m),
        };
        let ghost start = parsed.view_of();
        let ghost args = texts(arguments@);
        let mut i: usize = 0;
        while i < arguments.len()
            invariant
                i <= arguments.len(),
                readings.len() == arguments.len(),
                args == texts(arguments@),
                configured(*env, args, readings@) == read_args(args, readings@, 0, start),
                read_args(args, readings@, 0, start) == read_args(
                    args,
                    readings@,
                    i as nat,
                    parsed.view_of(),
                ),
            decreases arguments.len() - i,
        {
            proof {
                lemma_option_names_distinct();
            }
            let argument = arguments[i].as_str();
            let ghost a = args[i as int];
            assert(argument@ == a);
            if same_text(argument, "--help") || same_text(argument, "-h") {
                return Ok(ArgsOutcome::Help);
            }
            if same_text(argument, "--version") || same_text(argument, "-V") {
                return Ok(ArgsOutcome::Version);
            }
            if same_text(argument, "--no-open-label-preview") {
                let ghost st = parsed.view_of();
                parsed.no_open_label_preview = true;
                assert(parsed.view_of() == ArgsView { no_open_label_preview: true, ..st });
                assert(!takes_value(a));
                assert(read_args(args, readings@, i as nat, st) == read_args(args, readings@, i as nat + 1, parsed.view_of()));
                i = i + 1;
                continue;
            }
            if same_text(argument, "--printer-no-cut") {
                let ghost st = parsed.view_of();
                parsed.printer_no_cut = true;
                assert(parsed.view_of() == ArgsView { printer_no_cut: true, ..st });
                assert(!takes_value(a));
                assert(read_args(args, readings@, i as nat, st) == read_args(args, readings@, i as nat + 1, parsed.view_of()));
                i = i + 1;
                continue;
            }
            let is_mode = same_text(argument, "--print-mode");
            let is_python = same_text(argument, "--printer-python");
            let is_script = same_text(argument, "--printer-script");
            let is_dir = same_text(argument, "--label-preview-dir");
            let is_host = same_text(argument, "--printer-host");
            let is_port = same_text(argument, "--printer-port");
            let is_timeout = same_text(argument, "--printer-timeout");
            if !(is_mode || is_python || is_script || is_dir || is_host || is_port || is_timeout) {
                let tail = concat2("\n\n", HELP);
                let message = concat3("未知启动参数：", argument, tail.as_str());
                assert(message@ =~= "未知启动参数："@ + a + "\n\n"@ + HELP@);
                return Err(message);
            }
            if i + 1 >= arguments.len() {
                return Err(concat2(argument, " 缺少参数值"));
            }
            let value = &arguments[i + 1];
            assert(value@ == args[i + 1]);
            assert(takes_value(a));
            let ghost st = parsed.view_of();
            if is_mode {
                match PrintMode::from_text(value.as_str()) {
                    Ok(m) => {
                        parsed.print_mode = m;
                    },
                    Err(message) => {
                        return Err(message);
                    },
                }
            } else if is_python {
                parsed.printer_python = Some(copy_text(value));
            } else if is_script {
                parsed.printer_script = Some(copy_text(value));
            } else if is_dir {
                parsed.label_preview_dir = Some(copy_text(value));
            } else if is_host {
                parsed.printer_host = copy_text(value);
            } else if is_port {
                match parse_unsigned_text(value.as_str(), 65535) {
                    Some(n) => {
                        parsed.printer_port = n as u16;
                    },
                    None => {
                        return Err(owned("--printer-port 必须是 1–65535 的整数"));
                    },
                }
            } else {
                match readings[i + 1] {
                    Some(bits) => {
                        parsed.printer_timeout_bits = bits;
                    },
                    None => {
                        return Err(owned("--printer-timeout 必须是秒数"));
                    },
                }
            }
            assert(apply_option(a, value@, readings@[i + 1], st) == Ok::<ArgsView, Seq<char>>(
                parsed.view_of(),
            ));
            i = i + 2;
        }
        if !is_positive_finite(parsed.printer_timeout_bits) {
            return Err(owned("--printer-timeout 必须大于 0"));
        }
        if parsed.printer_port == 0 {
            return Err(owned("--printer-port 必须是 1–65535 的整数"));
        }
        Ok(ArgsOutcome::Run(parsed))
    }
}

} // verus!

verus! {

/// A timeout of binary64 bit pattern `bits` that the service accepts: the
/// sign bit clear, the exponent field not all ones (not infinite, not a NaN)
/// and not zero.
pub open spec fn timeout_usable(bits: u64) -> bool {
    &&& bits < 0x8000_0000_0000_0000
    &&& (bits >> 52) & 0x7ff != 0x7ff
    &&& bits != 0
}

/// How the command line is read, option by option: each flag sets its own
/// option and no other, each option with a value sets that option to the
/// value that follows it, `--help` and `--version` (or `-h`, `-V`) end the
/// reading, and once every argument is read the options run when the
/// timeout is finite and positive and the port not zero.
pub proof fn law_options_set_their_own_fields(
    args: Seq<Seq<char>>,
    readings: Seq<Option<u64>>,
    i: nat,
    st: ArgsView,
)
    requires
        i < args.len(),
    ensures
        args[i as int] == "--no-open-label-preview"@ ==> read_args(args, readings, i, st) == read_args(
            args,
            readings,
            i + 1,
            ArgsView { no_open_label_preview: true, ..st },
        ),
        args[i as int] == "--printer-no-cut"@ ==> read_args(args, readings, i, st) == read_args(
            args,
            readings,
            i + 1,
            ArgsView { printer_no_cut: true, ..st },
        ),
        args[i as int] == "--help"@ || args[i as int] == "-h"@ ==> read_args(args, readings, i, st)
            is Help,
        args[i as int] == "--version"@ || args[i as int] == "-V"@ ==> read_args(args, readings, i, st)
            is Version,
        i + 1 < args.len() ==> {
            let v = args[(i + 1) as int];
            &&& args[i as int] == "--printer-host"@ ==> read_args(args, readings, i, st) == read_args(
                args,
                readings,
                i + 2,
                ArgsView { printer_host: v, ..st },
            )
            &&& args[i as int] == "--printer-python"@ ==> read_args(args, readings, i, st) == read_args(
                args,
                readings,
                i + 2,
                ArgsView { printer_python: Some(v), ..st },
            )
            &&& args[i as int] == "--printer-script"@ ==> read_args(args, readings, i, st) == read_args(
                args,
                readings,
                i + 2,
                ArgsView { printer_script: Some(v), ..st },
            )
            &&& args[i as int] == "--label-preview-dir"@ ==> read_args(args, readings, i, st) == read_args(
                args,
                readings,
                i + 2,
                ArgsView { label_preview_dir: Some(v), ..st },
            )
            &&& args[i as int] == "--print-mode"@ && v == "preview"@ ==> read_args(args, readings, i, st)
                == read_args(args, readings, i + 2, ArgsView { print_mode: PrintMode::Preview, ..st })
            &&& args[i as int] == "--print-mode"@ && v == "printer"@ ==> read_args(args, readings, i, st)
                == read_args(args, readings, i + 2, ArgsView { print_mode: PrintMode::Printer, ..st })
            &&& args[i as int] == "--printer-timeout"@ && readings[(i + 1) as int] is Some ==> read_args(
                args,
                readings,
                i,
                st,
            ) == read_args(
                args,
                readings,
                i + 2,
                ArgsView { printer_timeout_bits: readings[(i + 1) as int]->0, ..st },
            )
            &&& args[i as int] == "--printer-port"@ && parse_unsigned(v, 65535) is Some ==> read_args(
                args,
                readings,
                i,
                st,
            ) == read_args(
                args,
                readings,
                i + 2,
                ArgsView { printer_port: parse_unsigned(v, 65535)->0 as u16, ..st },
            )
        },
        i + 1 == args.len() && (args[i as int] == "--printer-host"@ || args[i as int] == "--printer-port"@
            || args[i as int] == "--printer-timeout"@ || args[i as int] == "--print-mode"@) ==> read_args(
            args,
            readings,
            i,
            st,
        ) == ArgsResult::Fail(args[i as int] + " 缺少参数值"@),
        timeout_usable(st.printer_timeout_bits) && st.printer_port != 0 ==> read_args(
            args,
            readings,
            args.len(),
            st,
        ) == ArgsResult::Run(st),
        !timeout_usable(st.printer_timeout_bits) ==> read_args(args, readings, args.len(), st)
            == ArgsResult::Fail("--printer-timeout 必须大于 0"@),
        timeout_usable(st.printer_timeout_bits) && st.printer_port == 0 ==> read_args(
            args,
            readings,
            args.len(),
            st,
        ) == ArgsResult::Fail("--printer-port 必须是 1–65535 的整数"@),
{
    lemma_option_names_distinct();
    let bits = st.printer_timeout_bits;
    assert(((bits >> 52) & 0x7ff) == (bits / 0x10_0000_0000_0000) % 0x800) by (bit_vector);
    assert((bits < 0x8000_0000_0000_0000) == (bits / 0x8000_0000_0000_0000 == 0)) by (bit_vector);
}

/// Without printer settings in the environment the options start from the
/// defaults: preview mode, printer `192.168.31.114:9100`, a timeout of three
/// seconds, no paths, previews opened and paper cut.
pub proof fn law_empty_environment_gives_defaults(env: PrinterEnv)
    requires
        env_value(env.enabled) is None,
        env_value(env.host) is None,
        env_value(env.port) is None,
        env_value(env.timeout) is None,
    ensures
        env_args(env) == Ok::<ArgsView, Seq<char>>(
            ArgsView {
                print_mode: PrintMode::Preview,
                printer_python: None,
                printer_script: None,
                label_preview_dir: None,
                printer_host: "192.168.31.114"@,
                printer_port: 9100,
                printer_timeout_bits: DEFAULT_TIMEOUT_BITS,
                no_open_label_preview: false,
                printer_no_cut: false,
            },
        ),
{
}

} // verus!
