//! The management panel's logic: the editable configuration fields, how a
//! value is shown (secrets masked) and checked before it is saved, which
//! changes are dangerous, and the menu decisions.

use vstd::prelude::*;
use vstd::utf8::{decode_utf8, encode_utf8, encode_utf8_decode_utf8, is_char_boundary};
use crate::decimal::{
    decimal, decimal_u64, parse_i64, parse_signed, parse_unsigned, parse_unsigned_upto,
    signed_decimal, signed_decimal_i64,
};
use crate::service::Status;
use crate::envfile::{first_value, lookup, pair_views};
use crate::text::{
    from_chars, join, join_chars, lowercase, push_all, str_eq, to_chars, to_lowercase, trim, trim_str,
    chars_eq, ascii_lower, is_ascii_seq, eq_ignore_ascii_case, eq_ignore_case, push_str_chars, find_char, find_from,
    slice_chars, trim_chars,
};

verus! {

/// How a field's value is checked.
pub enum Kind {
    Bool,
    Int,
    Float,
    Str,
    Enum(&'static [&'static str]),
}

/// One editable `.env` field.
pub struct Fld {
    pub key: &'static str,
    pub kind: Kind,
    pub secret: bool,
    pub desc: &'static str,
}

/// A field.
pub fn f(key: &'static str, kind: Kind, secret: bool, desc: &'static str) -> (r: Fld)
    ensures
        r.key == key,
        r.kind == kind,
        r.secret == secret,
        r.desc == desc,
{
    Fld { key, kind, secret, desc }
}

} // verus!

verus! {

/// Kind codes of a table row.
pub open spec fn kind_code(k: Kind) -> u8 {
    match k {
        Kind::Bool => KIND_BOOL,
        Kind::Int => KIND_INT,
        Kind::Float => KIND_FLOAT,
        Kind::Str => KIND_STR,
        Kind::Enum(_) => KIND_ENUM,
    }
}

pub const KIND_BOOL: u8 = 0;

pub const KIND_INT: u8 = 1;

pub const KIND_FLOAT: u8 = 2;

pub const KIND_STR: u8 = 3;

pub const KIND_ENUM: u8 = 4;

/// The choices of an enumerated kind; empty for the other kinds.
pub open spec fn choices_of(k: Kind) -> Seq<Seq<char>> {
    match k {
        Kind::Enum(c) => c@.map_values(|s: &str| s@),
        _ => Seq::empty(),
    }
}

/// A field as a row: key, kind code, choices, whether it is secret, description.
pub type Row = (Seq<char>, u8, Seq<Seq<char>>, bool, Seq<char>);

pub open spec fn row(key: Seq<char>, kind: u8, choices: Seq<Seq<char>>, secret: bool, desc: Seq<char>) -> Row {
    (key, kind, choices, secret, desc)
}

/// The row that a field is.
pub open spec fn row_of(fl: Fld) -> Row {
    (fl.key@, kind_code(fl.kind), choices_of(fl.kind), fl.secret, fl.desc@)
}

/// The rows of a list of fields.
pub open spec fn rows_of(fs: Seq<Fld>) -> Seq<Row> {
    fs.map_values(|fl: Fld| row_of(fl))
}

/// The strategy-tuning fields, in menu order.
pub open spec fn param_rows() -> Seq<Row> {
    seq![
        row("STRATEGY"@, KIND_ENUM, seq!["momentum"@, "follow"@], false, "momentum=动量 follow=顺势(复刻JetFadil)"@),
        row("DRIFT_ENTRY_BPS"@, KIND_FLOAT, Seq::empty(), false, "follow:窗口涨跌超此bps才顺势接"@),
        row("FIXED_SHARES"@, KIND_FLOAT, Seq::empty(), false, "每单固定份额"@),
        row("ORDER_TYPE"@, KIND_ENUM, seq!["FOK"@, "FAK"@, "GTC"@], false, "订单类型"@),
        row("SLIPPAGE_BPS"@, KIND_FLOAT, Seq::empty(), false, "滑点(100=1%)"@),
        row("MAX_POSITION_USDC"@, KIND_FLOAT, Seq::empty(), false, "单仓名义上限"@),
        row("MAX_TRADES_PER_MARKET"@, KIND_INT, Seq::empty(), false, "每市场最多下单"@),
        row("MIN_ENTRY_PRICE"@, KIND_FLOAT, Seq::empty(), false, "最低入场价"@),
        row("MAX_ENTRY_PRICE"@, KIND_FLOAT, Seq::empty(), false, "最高入场价(follow:别追太贵)"@),
        row("EARLY_ENTRY_CUTOFF_SEC"@, KIND_INT, Seq::empty(), false, "follow:开盘后多少秒才接(等drift)"@),
        row("LATE_ENTRY_CUTOFF_SEC"@, KIND_INT, Seq::empty(), false, "距结算多少秒停止进场"@),
        row("MIN_ML_EDGE"@, KIND_FLOAT, Seq::empty(), false, "momentum:最小模型优势"@),
        row("TAKE_PROFIT_PCT"@, KIND_FLOAT, Seq::empty(), false, "momentum:止盈比例"@),
        row("ENABLE_STOP_LOSS"@, KIND_BOOL, Seq::empty(), false, "是否止损"@),
        row("STOP_LOSS_PCT"@, KIND_FLOAT, Seq::empty(), false, "止损比例"@),
    ]
}

/// The field groups of the configuration menu: name and rows, in menu order.
pub open spec fn group_rows() -> Seq<(Seq<char>, Seq<Row>)> {
    seq![
        ("市场周期"@, seq![
            row("MARKET_INTERVAL"@, KIND_ENUM, seq!["5m"@, "15m"@], false, "交易周期"@),
        ]),
        ("安全开关"@, seq![
            row("DRY_RUN"@, KIND_BOOL, Seq::empty(), false, "true=纸面模拟(安全)"@),
            row("LIVE_TRADING"@, KIND_BOOL, Seq::empty(), false, "true=允许实盘(危险)"@),
        ]),
        ("钱包 / API"@, seq![
            row("POLYMARKET_PRIVATE_KEY"@, KIND_STR, Seq::empty(), true, "签名私钥"@),
            row("POLYMARKET_API_KEY"@, KIND_STR, Seq::empty(), true, "CLOB API key"@),
            row("POLYMARKET_API_SECRET"@, KIND_STR, Seq::empty(), true, "CLOB API secret"@),
            row("POLYMARKET_API_PASSPHRASE"@, KIND_STR, Seq::empty(), true, "CLOB API passphrase"@),
            row("PM_FUNDER_ADDRESS"@, KIND_STR, Seq::empty(), false, "持有USDC的地址"@),
            row("POLYMARKET_SIG_TYPE"@, KIND_ENUM, seq!["0"@, "1"@, "2"@], false, "0=EOA 1=PROXY 2=SAFE"@),
            row("CHAIN_ID"@, KIND_INT, Seq::empty(), false, "链ID(137)"@),
        ]),
        ("网络"@, seq![
            row("RPC_URL"@, KIND_STR, Seq::empty(), false, "Polygon RPC"@),
            row("WSS_URL"@, KIND_STR, Seq::empty(), false, "可选 websocket"@),
            row("MARKET_WS_URL"@, KIND_STR, Seq::empty(), false, "盘口 WS 地址"@),
            row("WS_STALENESS_SEC"@, KIND_INT, Seq::empty(), false, "WS过期阈值(秒)"@),
            row("PYTHON_BIN"@, KIND_STR, Seq::empty(), false, "实盘下单的Python"@),
        ]),
        ("下单设置"@, param_rows()),
        ("入场过滤"@, seq![
            row("MIN_ENTRY_PRICE"@, KIND_FLOAT, Seq::empty(), false, "最低入场价"@),
            row("MAX_ENTRY_PRICE"@, KIND_FLOAT, Seq::empty(), false, "最高入场价"@),
            row("MAX_SPREAD_PCT"@, KIND_FLOAT, Seq::empty(), false, "最大点差占比"@),
            row("LATE_ENTRY_CUTOFF_SEC"@, KIND_INT, Seq::empty(), false, "距结算<此值不进场"@),
            row("EARLY_ENTRY_CUTOFF_SEC"@, KIND_INT, Seq::empty(), false, "开盘后多少秒才进场"@),
            row("MIN_ML_EDGE"@, KIND_FLOAT, Seq::empty(), false, "最小模型优势"@),
        ]),
        ("离场设置"@, seq![
            row("TAKE_PROFIT_PCT"@, KIND_FLOAT, Seq::empty(), false, "止盈比例"@),
            row("ENABLE_STOP_LOSS"@, KIND_BOOL, Seq::empty(), false, "是否止损"@),
            row("STOP_LOSS_PCT"@, KIND_FLOAT, Seq::empty(), false, "止损比例"@),
        ]),
        ("运行 / 信号"@, seq![
            row("POLL_INTERVAL_SEC"@, KIND_FLOAT, Seq::empty(), false, "轮询间隔(秒)"@),
            row("SIGNAL_LOOKBACK_MIN"@, KIND_INT, Seq::empty(), false, "信号回看分钟"@),
            row("PRICE_FEED"@, KIND_ENUM, seq!["coinbase"@, "binance"@], false, "行情源"@),
        ]),
    ]
}

/// The strategy-tuning fields (the panel's "tune strategy" menu).
pub fn param_fields() -> (r: Vec<Fld>)
    ensures
        rows_of(r@) == param_rows(),
{
    let r = vec![
        f("STRATEGY", Kind::Enum(&["momentum", "follow"]), false, "momentum=动量 follow=顺势(复刻JetFadil)"),
        f("DRIFT_ENTRY_BPS", Kind::Float, false, "follow:窗口涨跌超此bps才顺势接"),
        f("FIXED_SHARES", Kind::Float, false, "每单固定份额"),
        f("ORDER_TYPE", Kind::Enum(&["FOK", "FAK", "GTC"]), false, "订单类型"),
        f("SLIPPAGE_BPS", Kind::Float, false, "滑点(100=1%)"),
        f("MAX_POSITION_USDC", Kind::Float, false, "单仓名义上限"),
        f("MAX_TRADES_PER_MARKET", Kind::Int, false, "每市场最多下单"),
        f("MIN_ENTRY_PRICE", Kind::Float, false, "最低入场价"),
        f("MAX_ENTRY_PRICE", Kind::Float, false, "最高入场价(follow:别追太贵)"),
        f("EARLY_ENTRY_CUTOFF_SEC", Kind::Int, false, "follow:开盘后多少秒才接(等drift)"),
        f("LATE_ENTRY_CUTOFF_SEC", Kind::Int, false, "距结算多少秒停止进场"),
        f("MIN_ML_EDGE", Kind::Float, false, "momentum:最小模型优势"),
        f("TAKE_PROFIT_PCT", Kind::Float, false, "momentum:止盈比例"),
        f("ENABLE_STOP_LOSS", Kind::Bool, false, "是否止损"),
        f("STOP_LOSS_PCT", Kind::Float, false, "止损比例"),
    ];
    assert(rows_of(r@) =~~= param_rows());
    r
}

/// Names and fields of each group of the configuration menu.
pub fn groups() -> (r: Vec<(&'static str, Vec<Fld>)>)
    ensures
        r@.map_values(|g: (&'static str, Vec<Fld>)| (g.0@, rows_of(g.1@))) == group_rows(),
{
    let g0 = vec![
        f("MARKET_INTERVAL", Kind::Enum(&["5m", "15m"]), false, "交易周期"),
    ];
    assert(rows_of(g0@) =~~= group_rows()[0].1);
    let g1 = vec![
        f("DRY_RUN", Kind::Bool, false, "true=纸面模拟(安全)"),
        f("LIVE_TRADING", Kind::Bool, false, "true=允许实盘(危险)"),
    ];
    assert(rows_of(g1@) =~~= group_rows()[1].1);
    let g2 = vec![
        f("POLYMARKET_PRIVATE_KEY", Kind::Str, true, "签名私钥"),
        f("POLYMARKET_API_KEY", Kind::Str, true, "CLOB API key"),
        f("POLYMARKET_API_SECRET", Kind::Str, true, "CLOB API secret"),
        f("POLYMARKET_API_PASSPHRASE", Kind::Str, true, "CLOB API passphrase"),
        f("PM_FUNDER_ADDRESS", Kind::Str, false, "持有USDC的地址"),
        f("POLYMARKET_SIG_TYPE", Kind::Enum(&["0", "1", "2"]), false, "0=EOA 1=PROXY 2=SAFE"),
        f("CHAIN_ID", Kind::Int, false, "链ID(137)"),
    ];
    assert(rows_of(g2@) =~~= group_rows()[2].1);
    let g3 = vec![
        f("RPC_URL", Kind::Str, false, "Polygon RPC"),
        f("WSS_URL", Kind::Str, false, "可选 websocket"),
        f("MARKET_WS_URL", Kind::Str, false, "盘口 WS 地址"),
        f("WS_STALENESS_SEC", Kind::Int, false, "WS过期阈值(秒)"),
        f("PYTHON_BIN", Kind::Str, false, "实盘下单的Python"),
    ];
    assert(rows_of(g3@) =~~= group_rows()[3].1);
    let g4 = param_fields();
    let g5 = vec![
        f("MIN_ENTRY_PRICE", Kind::Float, false, "最低入场价"),
        f("MAX_ENTRY_PRICE", Kind::Float, false, "最高入场价"),
        f("MAX_SPREAD_PCT", Kind::Float, false, "最大点差占比"),
        f("LATE_ENTRY_CUTOFF_SEC", Kind::Int, false, "距结算<此值不进场"),
        f("EARLY_ENTRY_CUTOFF_SEC", Kind::Int, false, "开盘后多少秒才进场"),
        f("MIN_ML_EDGE", Kind::Float, false, "最小模型优势"),
    ];
    assert(rows_of(g5@) =~~= group_rows()[5].1);
    let g6 = vec![
        f("TAKE_PROFIT_PCT", Kind::Float, false, "止盈比例"),
        f("ENABLE_STOP_LOSS", Kind::Bool, false, "是否止损"),
        f("STOP_LOSS_PCT", Kind::Float, false, "止损比例"),
    ];
    assert(rows_of(g6@) =~~= group_rows()[6].1);
    let g7 = vec![
        f("POLL_INTERVAL_SEC", Kind::Float, false, "轮询间隔(秒)"),
        f("SIGNAL_LOOKBACK_MIN", Kind::Int, false, "信号回看分钟"),
        f("PRICE_FEED", Kind::Enum(&["coinbase", "binance"]), false, "行情源"),
    ];
    assert(rows_of(g7@) =~~= group_rows()[7].1);
    let r = vec![
        ("市场周期", g0),
        ("安全开关", g1),
        ("钱包 / API", g2),
        ("网络", g3),
        ("下单设置", g4),
        ("入场过滤", g5),
        ("离场设置", g6),
        ("运行 / 信号", g7),
    ];
    assert(r@.map_values(|g: (&'static str, Vec<Fld>)| (g.0@, rows_of(g.1@))) =~= group_rows());
    r
}

} // verus!

verus! {

/// How the panel shows a field's value: `(未设置)` for an empty or placeholder
/// value (`0x...`, `...`); for a secret, `****` when it is at most 8 bytes
/// long, else its first 4 bytes, `****` and its last 4 bytes; otherwise the
/// trimmed value.
pub open spec fn mask_spec(secret: bool, val: Seq<char>) -> Seq<char> {
    let v = trim(val);
    let b = encode_utf8(v);
    if v.len() == 0 || v == "0x..."@ || v == "..."@ {
        "(未设置)"@
    } else if secret {
        if b.len() <= 8 {
            "****"@
        } else {
            decode_utf8(b.take(4)) + "****"@ + decode_utf8(b.skip(b.len() - 4))
        }
    } else {
        v
    }
}

/// The trimmed value's bytes can be cut where masking a secret cuts them.
pub open spec fn mask_cuttable(secret: bool, val: Seq<char>) -> bool {
    let b = encode_utf8(trim(val));
    secret && b.len() > 8 ==> is_char_boundary(b, 4) && is_char_boundary(b, b.len() - 4)
}

/// A value as the panel shows it.
#[verifier::rlimit(40)]
pub fn mask(secret: bool, val: &str) -> (r: String)
    requires
        mask_cuttable(secret, val@),
    ensures
        r@ == mask_spec(secret, val@),
{
    let t = trim_str(val);
    let v = t.as_str();
    if v.unicode_len() == 0 || str_eq(v, "0x...") || str_eq(v, "...") {
        return String::from_str("(未设置)");
    }
    if secret {
        let n = v.as_bytes().len();
        if n <= 8 {
            return String::from_str("****");
        }
        let (head, _) = v.split_at(4);
        let (_, tail) = v.split_at(n - 4);
        proof {
            encode_utf8_decode_utf8(head@);
            encode_utf8_decode_utf8(tail@);
            assert(encode_utf8(v@).subrange(0, 4) == encode_utf8(v@).take(4));
            assert(encode_utf8(v@).subrange(n - 4, n as int) == encode_utf8(v@).skip(n - 4));
        }
        let mut r = String::from_str(head);
        r.append("****");
        r.append(tail);
        return r;
    }
    t
}

} // verus!

verus! {

/// `str::to_lowercase` of `s`: for an ASCII string its letters made small, for
/// any other string the Unicode mapping's (named) result.
pub open spec fn lowered(s: Seq<char>) -> Seq<char> {
    if is_ascii_seq(s) {
        s.map_values(|c: char| ascii_lower(c))
    } else {
        lowercase(s)
    }
}

/// The canonical boolean that a lowercased answer stands for: `1`, `true`,
/// `yes`, `y`, `on` for true; `0`, `false`, `no`, `n`, `off` for false.
pub open spec fn bool_word_spec(w: Seq<char>) -> Option<bool> {
    if w == "1"@ || w == "true"@ || w == "yes"@ || w == "y"@ || w == "on"@ {
        Some(true)
    } else if w == "0"@ || w == "false"@ || w == "no"@ || w == "n"@ || w == "off"@ {
        Some(false)
    } else {
        None
    }
}

/// The boolean that a lowercased answer stands for, if any.
pub fn bool_word(lowered: &str) -> (r: Option<bool>)
    ensures
        r == bool_word_spec(lowered@),
{
    if str_eq(lowered, "1") || str_eq(lowered, "true") || str_eq(lowered, "yes") || str_eq(
        lowered,
        "y",
    ) || str_eq(lowered, "on") {
        Some(true)
    } else if str_eq(lowered, "0") || str_eq(lowered, "false") || str_eq(lowered, "no") || str_eq(
        lowered,
        "n",
    ) || str_eq(lowered, "off") {
        Some(false)
    } else {
        None
    }
}

/// What checking a value of `kind` gives: the value to save, or the message
/// shown when it is refused. The raw input is trimmed first. A boolean is
/// saved as `true` or `false`; an integer in its canonical decimal form; a
/// choice must be one of the choices exactly; a string is saved as it is.
/// Floating-point fields are not covered.
pub open spec fn validate_spec(kind: Kind, raw: Seq<char>) -> Result<Seq<char>, Seq<char>> {
    let v = trim(raw);
    match kind {
        Kind::Bool => match bool_word_spec(lowered(v)) {
            Some(true) => Ok("true"@),
            Some(false) => Ok("false"@),
            None => Err("请输入 true/false"@),
        },
        Kind::Int => match parse_signed(v) {
            Some(n) => if i64::MIN <= n <= i64::MAX {
                Ok(signed_decimal(n))
            } else {
                Err("请输入整数"@)
            },
            None => Err("请输入整数"@),
        },
        Kind::Enum(c) => if c@.map_values(|s: &str| s@).contains(v) {
            Ok(v)
        } else {
            Err("只能是: "@ + join(c@.map_values(|s: &str| s@), ", "@))
        },
        _ => Ok(v),
    }
}

fn choice_chars(c: &'static [&'static str]) -> (r: Vec<Vec<char>>)
    ensures
        r@.map_values(|l: Vec<char>| l@) == c@.map_values(|s: &str| s@),
{
    let mut r: Vec<Vec<char>> = Vec::new();
    let mut i: usize = 0;
    while i < c.len()
        invariant
            i <= c@.len(),
            r@.map_values(|l: Vec<char>| l@) == c@.map_values(|s: &str| s@).take(i as int),
        decreases c@.len() - i,
    {
        let ghost before = r@;
        r.push(to_chars(c[i]));
        proof {
            assert(r@.map_values(|l: Vec<char>| l@) =~= before.map_values(|l: Vec<char>| l@)
                + seq![c@[i as int]@]);
            assert(c@.map_values(|s: &str| s@).take(i + 1) =~= c@.map_values(|s: &str| s@).take(
                i as int,
            ) + seq![c@[i as int]@]);
        }
        i = i + 1;
    }
    assert(c@.map_values(|s: &str| s@).take(c@.len() as int) =~= c@.map_values(|s: &str| s@));
    r
}

fn contains_chars(ls: &Vec<Vec<char>>, v: &Vec<char>) -> (b: bool)
    ensures
        b == ls@.map_values(|l: Vec<char>| l@).contains(v@),
{
    let ghost views = ls@.map_values(|l: Vec<char>| l@);
    let mut i: usize = 0;
    while i < ls.len()
        invariant
            i <= ls.len(),
            views == ls@.map_values(|l: Vec<char>| l@),
            forall|k: int| 0 <= k < i ==> views[k] != v@,
        decreases ls.len() - i,
    {
        if chars_eq(&ls[i], v) {
            assert(views[i as int] == v@);
            return true;
        }
        i = i + 1;
    }
    false
}

/// Checks a raw input for a field of `kind` (floating-point fields aside).
#[verifier::rlimit(40)]
pub fn validate(kind: &Kind, raw: &str) -> (r: Result<String, String>)
    requires
        !(kind is Float),
    ensures
        match r {
            Ok(s) => validate_spec(*kind, raw@) == Ok::<Seq<char>, Seq<char>>(s@),
            Err(e) => validate_spec(*kind, raw@) == Err::<Seq<char>, Seq<char>>(e@),
        },
{
    let v = trim_str(raw);
    match kind {
        Kind::Bool => {
            let low = to_lowercase(v.as_str());
            match bool_word(low.as_str()) {
                Some(true) => Ok(String::from_str("true")),
                Some(false) => Ok(String::from_str("false")),
                None => Err(String::from_str("请输入 true/false")),
            }
        },
        Kind::Int => {
            match parse_i64(&to_chars(v.as_str())) {
                Some(n) => Ok(from_chars(signed_decimal_i64(n).as_slice())),
                None => Err(String::from_str("请输入整数")),
            }
        },
        Kind::Enum(c) => {
            let cs = choice_chars(c);
            let vc = to_chars(v.as_str());
            if contains_chars(&cs, &vc) {
                Ok(v)
            } else {
                let mut msg = to_chars("只能是: ");
                let sep = to_chars(", ");
                let j = join_chars(&cs, 0, &sep);
                assert(cs@.map_values(|l: Vec<char>| l@).skip(0) == cs@.map_values(
                    |l: Vec<char>| l@,
                ));
                push_all(&mut msg, &j);
                Err(from_chars(msg.as_slice()))
            }
        },
        Kind::Str => Ok(v),
        Kind::Float => Ok(v),
    }
}

/// A change that brings the bot nearer to trading real money:
/// `LIVE_TRADING=true` or `DRY_RUN=false`.
pub open spec fn is_risky_spec(key: Seq<char>, val: Seq<char>) -> bool {
    (key == "LIVE_TRADING"@ && val == "true"@) || (key == "DRY_RUN"@ && val == "false"@)
}

/// Whether setting `key` to `val` needs the explicit `YES` confirmation.
pub fn is_risky(key: &str, val: &str) -> (b: bool)
    ensures
        b == is_risky_spec(key@, val@),
{
    (str_eq(key, "LIVE_TRADING") && str_eq(val, "true")) || (str_eq(key, "DRY_RUN") && str_eq(
        val,
        "false",
    ))
}

/// Whether an edit prompt's answer cancels the edit (empty or `0`).
pub fn is_cancel(raw: &str) -> (b: bool)
    ensures
        b == (raw@.len() == 0 || raw@ == "0"@),
{
    raw.unicode_len() == 0 || str_eq(raw, "0")
}

/// The `DRY_RUN` value after toggling, from the current value lowercased:
/// the bot counts as dry unless the value is `false`, `0` or `no`.
pub open spec fn toggled_spec(lowered: Seq<char>) -> Seq<char> {
    if lowered == "false"@ || lowered == "0"@ || lowered == "no"@ {
        "true"@
    } else {
        "false"@
    }
}

/// The `DRY_RUN` value after toggling, from the current value lowercased.
pub fn toggled_dry_run(lowered: &str) -> (r: &'static str)
    ensures
        r@ == toggled_spec(lowered@),
{
    if str_eq(lowered, "false") || str_eq(lowered, "0") || str_eq(lowered, "no") {
        "true"
    } else {
        "false"
    }
}

/// The `DRY_RUN` value after toggling the current value `cur`.
pub fn toggle_dry_run(cur: &str) -> (r: &'static str)
    ensures
        r@ == toggled_spec(lowered(cur@)),
{
    let low = to_lowercase(cur);
    toggled_dry_run(low.as_str())
}

} // verus!

verus! {

/// Both safety locks in the configuration are open: `DRY_RUN` is `false` and
/// `LIVE_TRADING` is `true`, in any ASCII case. Any other value, an unset one
/// included, keeps the bot on paper.
pub open spec fn live_unlocked_spec(dry: Seq<char>, live: Seq<char>) -> bool {
    eq_ignore_ascii_case(dry, "false"@) && eq_ignore_ascii_case(live, "true"@)
}

/// Whether the configuration's two safety locks are both open.
pub fn live_unlocked(dry: &str, live: &str) -> (b: bool)
    ensures
        b == live_unlocked_spec(dry@, live@),
{
    eq_ignore_case(dry, "false") && eq_ignore_case(live, "true")
}

/// The trading mode shown in the header: live (`实盘`) only when both safety
/// locks are open; paper (`模拟`) otherwise.
pub fn dry_label(dry: &str, live: &str) -> (r: &'static str)
    ensures
        r@ == if live_unlocked_spec(dry@, live@) {
            "实盘"@
        } else {
            "模拟"@
        },
{
    if live_unlocked(dry, live) {
        "实盘"
    } else {
        "模拟"
    }
}

/// The entry strategy shown in the header: `follow` in any ASCII case, else
/// momentum.
pub fn strategy_label(strat: &str) -> (r: &'static str)
    ensures
        r@ == if eq_ignore_ascii_case(strat@, "follow"@) {
            "顺势(follow)"@
        } else {
            "动量(momentum)"@
        },
{
    if eq_ignore_case(strat, "follow") {
        "顺势(follow)"
    } else {
        "动量(momentum)"
    }
}

/// The service part of the header: `运行中` with `PID <pid> / <mode>`, or
/// `已停止` with nothing.
pub fn service_labels(status: &Status) -> (r: (&'static str, String))
    ensures
        match status {
            Status::Running { pid, mode } => r.0@ == "运行中"@ && r.1@ == "PID "@ + decimal(
                *pid as nat,
            ) + " / "@ + mode@,
            Status::Stopped => r.0@ == "已停止"@ && r.1@ == Seq::<char>::empty(),
        },
{
    match status {
        Status::Running { pid, mode } => {
            let mut v = to_chars("PID ");
            push_all(&mut v, &decimal_u64(*pid as u64));
            push_str_chars(&mut v, " / ");
            push_str_chars(&mut v, mode.as_str());
            ("运行中", from_chars(v.as_slice()))
        },
        Status::Stopped => ("已停止", String::new()),
    }
}

/// An item of the main menu.
pub enum MenuAction {
    EditConfig,
    ViewConfig,
    TestApi,
    Stats,
    StartService,
    StopService,
    RestartService,
    ViewLogs,
    ToggleDryRun,
    TuneStrategy,
    ClearSimData,
    Update,
    Quit,
}

/// The main menu's item for an answer (`1`..`12`, `0` or `q` to quit), if any.
pub open spec fn menu_action_spec(c: Seq<char>) -> Option<MenuAction> {
    if c == "1"@ {
        Some(MenuAction::EditConfig)
    } else if c == "2"@ {
        Some(MenuAction::ViewConfig)
    } else if c == "3"@ {
        Some(MenuAction::TestApi)
    } else if c == "4"@ {
        Some(MenuAction::Stats)
    } else if c == "5"@ {
        Some(MenuAction::StartService)
    } else if c == "6"@ {
        Some(MenuAction::StopService)
    } else if c == "7"@ {
        Some(MenuAction::RestartService)
    } else if c == "8"@ {
        Some(MenuAction::ViewLogs)
    } else if c == "9"@ {
        Some(MenuAction::ToggleDryRun)
    } else if c == "10"@ {
        Some(MenuAction::TuneStrategy)
    } else if c == "11"@ {
        Some(MenuAction::ClearSimData)
    } else if c == "12"@ {
        Some(MenuAction::Update)
    } else if c == "0"@ || c == "q"@ {
        Some(MenuAction::Quit)
    } else {
        None
    }
}

/// The main menu's item for an answer, if any.
pub fn menu_action(c: &str) -> (r: Option<MenuAction>)
    ensures
        r == menu_action_spec(c@),
{
    if str_eq(c, "1") {
        Some(MenuAction::EditConfig)
    } else if str_eq(c, "2") {
        Some(MenuAction::ViewConfig)
    } else if str_eq(c, "3") {
        Some(MenuAction::TestApi)
    } else if str_eq(c, "4") {
        Some(MenuAction::Stats)
    } else if str_eq(c, "5") {
        Some(MenuAction::StartService)
    } else if str_eq(c, "6") {
        Some(MenuAction::StopService)
    } else if str_eq(c, "7") {
        Some(MenuAction::RestartService)
    } else if str_eq(c, "8") {
        Some(MenuAction::ViewLogs)
    } else if str_eq(c, "9") {
        Some(MenuAction::ToggleDryRun)
    } else if str_eq(c, "10") {
        Some(MenuAction::TuneStrategy)
    } else if str_eq(c, "11") {
        Some(MenuAction::ClearSimData)
    } else if str_eq(c, "12") {
        Some(MenuAction::Update)
    } else if str_eq(c, "0") || str_eq(c, "q") {
        Some(MenuAction::Quit)
    } else {
        None
    }
}

/// An answer to a numbered list of `len` entries.
pub enum Pick {
    /// `0` or nothing: leave the list.
    Back,
    /// The entry at this index (the answer minus one).
    Entry(usize),
    /// Anything else: ask again.
    Again,
}

/// What an answer to a numbered list of `len` entries picks: `0` or nothing
/// goes back; a number from 1 to `len` (as `str::parse::<usize>` reads it)
/// picks that entry; anything else asks again.
pub open spec fn pick_spec(c: Seq<char>, len: nat) -> Pick {
    if c == "0"@ || c.len() == 0 {
        Pick::Back
    } else {
        match parse_unsigned(c) {
            Some(n) => if 1 <= n <= len && n <= usize::MAX {
                Pick::Entry((n - 1) as usize)
            } else {
                Pick::Again
            },
            None => Pick::Again,
        }
    }
}

/// What an answer to a numbered list of `len` entries picks.
pub fn pick(c: &str, len: usize) -> (r: Pick)
    ensures
        r == pick_spec(c@, len as nat),
{
    if str_eq(c, "0") || c.unicode_len() == 0 {
        return Pick::Back;
    }
    match parse_unsigned_upto(&to_chars(c), usize::MAX as u64) {
        Some(n) => {
            if n >= 1 && n <= len as u64 {
                Pick::Entry((n - 1) as usize)
            } else {
                Pick::Again
            }
        },
        None => Pick::Again,
    }
}

/// Law: a toggle that turns paper trading off is a change that needs the
/// explicit confirmation.
pub proof fn lemma_toggle_off_is_risky(lowered: Seq<char>)
    ensures
        toggled_spec(lowered) == "false"@ ==> is_risky_spec("DRY_RUN"@, toggled_spec(lowered)),
{
}

/// Law: with either lock unset, the bot stays on paper.
pub proof fn lemma_unset_lock_is_paper(dry: Seq<char>, live: Seq<char>)
    requires
        dry.len() == 0 || live.len() == 0,
    ensures
        !live_unlocked_spec(dry, live),
{
    reveal_strlit("false");
    reveal_strlit("true");
}

/// The command-line flag that the service is started with, and whether the
/// started process skips its own live-trading confirmation: `--live` (already
/// confirmed in the panel) when the safety locks allow live trading, else
/// `--simulation`.
pub fn launch_flag(can_trade_live: bool) -> (r: (&'static str, bool))
    ensures
        r.0@ == if can_trade_live {
            "--live"@
        } else {
            "--simulation"@
        },
        r.1 == can_trade_live,
{
    if can_trade_live {
        ("--live", true)
    } else {
        ("--simulation", false)
    }
}

/// The backup copy's path for the env file at `p`, made at `ts` seconds after
/// the epoch: `<p>.backup-<ts>`.
pub fn backup_path(p: &str, ts: u64) -> (r: String)
    ensures
        r@ == p@ + ".backup-"@ + decimal(ts as nat),
{
    let mut v = to_chars(p);
    push_str_chars(&mut v, ".backup-");
    push_all(&mut v, &decimal_u64(ts));
    from_chars(v.as_slice())
}

} // verus!

verus! {

/// `s` ends with `p`.
pub open spec fn has_suffix(s: Seq<char>, p: Seq<char>) -> bool {
    p.len() <= s.len() && s.skip(s.len() - p.len()) == p
}

/// `s` with every trailing copy of `p` taken off (`str::trim_end_matches`).
pub open spec fn strip_all_suffix(s: Seq<char>, p: Seq<char>) -> Seq<char>
    decreases s.len(),
{
    if p.len() > 0 && has_suffix(s, p) {
        strip_all_suffix(s.take(s.len() - p.len()), p)
    } else {
        s
    }
}

/// Index of the first occurrence of `p` in `s` at or after `i` (`str::find`),
/// or `s.len()` when there is none.
pub open spec fn find_sub_from(s: Seq<char>, p: Seq<char>, i: int) -> int
    decreases s.len() + 1 - i,
{
    if i + p.len() > s.len() || i < 0 {
        s.len() as int
    } else if s.subrange(i, i + p.len()) == p {
        i
    } else {
        find_sub_from(s, p, i + 1)
    }
}

/// `s` without its leading `':'` and `'/'` characters.
pub open spec fn strip_colons_slashes(s: Seq<char>) -> Seq<char>
    decreases s.len(),
{
    if s.len() > 0 && (s[0] == ':' || s[0] == '/') {
        strip_colons_slashes(s.drop_first())
    } else {
        s
    }
}

/// The `owner/repo` that a git remote URL names on GitHub: the trimmed URL
/// without its trailing `.git`s, after its first `github.com` and the `:` and
/// `/` that follow; only when that part still holds a `/`.
pub open spec fn slug_spec(url: Seq<char>) -> Option<Seq<char>> {
    let s = strip_all_suffix(trim(url), ".git"@);
    let idx = find_sub_from(s, "github.com"@, 0);
    if idx >= s.len() {
        None
    } else {
        let tail = strip_colons_slashes(s.skip(idx + "github.com"@.len()));
        if find_from(tail, 0, '/') < tail.len() {
            Some(tail)
        } else {
            None
        }
    }
}

fn strip_all_suffix_chars(s: &Vec<char>, p: &Vec<char>) -> (r: Vec<char>)
    ensures
        r@ == strip_all_suffix(s@, p@),
{
    let mut n: usize = s.len();
    if p.len() == 0 {
        return slice_chars(s, 0, n);
    }
    assert(s@.take(n as int) == s@);
    loop
        invariant
            p.len() > 0,
            n <= s.len(),
            strip_all_suffix(s@, p@) == strip_all_suffix(s@.take(n as int), p@),
        decreases n,
    {
        let cur = slice_chars(s, 0, n);
        assert(cur@ == s@.take(n as int));
        if p.len() > n {
            return cur;
        }
        let tail = slice_chars(s, n - p.len(), n);
        assert(tail@ == cur@.skip(n - p.len()));
        if !chars_eq(&tail, p) {
            return cur;
        }
        assert(cur@.take(n - p.len()) == s@.take(n - p.len()));
        n = n - p.len();
    }
}

proof fn lemma_find_sub_end(s: Seq<char>, p: Seq<char>, i: int)
    ensures
        find_sub_from(s, p, i) < s.len() ==> find_sub_from(s, p, i) + p.len() <= s.len(),
    decreases s.len() + 1 - i,
{
    if !(i + p.len() > s.len() || i < 0) && s.subrange(i, i + p.len()) != p {
        lemma_find_sub_end(s, p, i + 1);
    }
}

fn find_sub(s: &Vec<char>, p: &Vec<char>) -> (i: usize)
    ensures
        i as int == find_sub_from(s@, p@, 0),
        i <= s.len(),
{
    if p.len() == 0 {
        assert(s@.subrange(0, 0) == p@);
        return 0;
    }
    let mut i: usize = 0;
    while p.len() <= s.len() && i <= s.len() - p.len()
        invariant
            p.len() > 0,
            i <= s.len(),
            find_sub_from(s@, p@, 0) == find_sub_from(s@, p@, i as int),
        decreases s.len() - i,
    {
        let w = slice_chars(s, i, i + p.len());
        if chars_eq(&w, p) {
            return i;
        }
        i = i + 1;
    }
    s.len()
}

fn strip_colons_slashes_chars(s: &Vec<char>) -> (r: Vec<char>)
    ensures
        r@ == strip_colons_slashes(s@),
{
    let mut i: usize = 0;
    assert(s@.skip(0) == s@);
    while i < s.len() && (s[i] == ':' || s[i] == '/')
        invariant
            i <= s.len(),
            strip_colons_slashes(s@) == strip_colons_slashes(s@.skip(i as int)),
        decreases s.len() - i,
    {
        assert(s@.skip(i as int).drop_first() == s@.skip(i + 1));
        i = i + 1;
    }
    slice_chars(s, i, s.len())
}

/// The `owner/repo` of a git remote URL on GitHub, if it names one.
pub fn slug_from_remote(url: &str) -> (r: Option<String>)
    ensures
        match r {
            Some(s) => slug_spec(url@) == Some(s@),
            None => slug_spec(url@) is None,
        },
{
    let u = trim_chars(&to_chars(url));
    let s = strip_all_suffix_chars(&u, &to_chars(".git"));
    let gh = to_chars("github.com");
    let idx = find_sub(&s, &gh);
    if idx >= s.len() {
        return None;
    }
    proof {
        lemma_find_sub_end(s@, gh@, 0);
    }
    let rest = slice_chars(&s, idx + gh.len(), s.len());
    assert(rest@ == s@.skip(idx + "github.com"@.len()));
    let tail = strip_colons_slashes_chars(&rest);
    if find_char(&tail, '/') < tail.len() {
        Some(from_chars(tail.as_slice()))
    } else {
        None
    }
}

/// The repository that updates are fetched from: the one named by the git
/// remote's URL (when `git` gave one), else `leosysd/my-btc-bot-5min`.
pub fn repo_slug(remote_url: Option<&str>) -> (r: String)
    ensures
        r@ == match remote_url {
            Some(u) => match slug_spec(u@) {
                Some(s) => s,
                None => "leosysd/my-btc-bot-5min"@,
            },
            None => "leosysd/my-btc-bot-5min"@,
        },
{
    if let Some(u) = remote_url {
        if let Some(s) = slug_from_remote(u) {
            return s;
        }
    }
    String::from_str("leosysd/my-btc-bot-5min")
}

/// The released binary's asset name for the platform.
pub fn asset_name(windows: bool) -> (r: &'static str)
    ensures
        r@ == if windows {
            "jybot-rs-x86_64-windows.exe"@
        } else {
            "jybot-rs-x86_64-linux"@
        },
{
    if windows {
        "jybot-rs-x86_64-windows.exe"
    } else {
        "jybot-rs-x86_64-linux"
    }
}

/// The download URL of the latest release's `asset` in repository `slug`.
pub fn release_url(slug: &str, asset: &str) -> (r: String)
    ensures
        r@ == "https://github.com/"@ + slug@ + "/releases/latest/download/"@ + asset@,
{
    let mut v = to_chars("https://github.com/");
    push_str_chars(&mut v, slug);
    push_str_chars(&mut v, "/releases/latest/download/");
    push_str_chars(&mut v, asset);
    from_chars(v.as_slice())
}

} // verus!

verus! {

/// The configuration file that the panel edits: the data directory's `.env`.
pub fn env_path(home: &str) -> (r: String)
    ensures
        r@ == crate::paths::join_path(home@, ".env"@),
{
    crate::paths::env_file(home)
}

} // verus!

verus! {

/// Law: a value that checking accepted is accepted again as it is: the saved
/// form is canonical (for booleans, integers, choices and strings).
pub proof fn lemma_validate_idempotent(kind: Kind, raw: Seq<char>)
    requires
        !(kind is Float),
        validate_spec(kind, raw) is Ok,
    ensures
        validate_spec(kind, validate_spec(kind, raw)->Ok_0) == validate_spec(kind, raw),
{
    let v = trim(raw);
    crate::text::lemma_trim_idempotent(raw);
    match kind {
        Kind::Bool => {
            reveal_strlit("true");
            reveal_strlit("false");
            reveal_strlit("1");
            reveal_strlit("yes");
            reveal_strlit("y");
            reveal_strlit("on");
            let t = "true"@;
            let f = "false"@;
            crate::text::lemma_trim_id(t);
            crate::text::lemma_trim_id(f);
            assert(t.map_values(|c: char| ascii_lower(c)) =~= t);
            assert(f.map_values(|c: char| ascii_lower(c)) =~= f);
            assert(is_ascii_seq(t));
            assert(is_ascii_seq(f));
            assert(validate_spec(kind, t) == Ok::<Seq<char>, Seq<char>>(t));
            assert(validate_spec(kind, f) == Ok::<Seq<char>, Seq<char>>(f));
        },
        Kind::Int => {
            let n = parse_signed(v)->0;
            let d = signed_decimal(n);
            if n < 0 {
                crate::decimal::lemma_decimal_value((-n) as nat);
                let m = decimal((-n) as nat);
                assert(d.drop_first() == m);
                assert(crate::decimal::is_digit(m.last()));
                assert(d.last() == m.last());
            } else {
                crate::decimal::lemma_decimal_value(n as nat);
                assert(crate::decimal::is_digit(d[0]));
                assert(crate::decimal::is_digit(d[d.len() - 1]));
            }
            crate::text::lemma_trim_id(d);
            assert(parse_signed(d) == Some(n));
        },
        _ => {},
    }
}

/// Law: a secret's display shows nothing but its first and last 4 bytes:
/// two secrets (neither unset nor a placeholder) that agree on those, both
/// longer than 8 bytes, or both at most 8 bytes long, are shown alike.
pub proof fn lemma_mask_reveals_ends(v1: Seq<char>, v2: Seq<char>)
    requires
        trim(v1).len() > 0 && trim(v1) != "0x..."@ && trim(v1) != "..."@,
        trim(v2).len() > 0 && trim(v2) != "0x..."@ && trim(v2) != "..."@,
        ({
            let b1 = encode_utf8(trim(v1));
            let b2 = encode_utf8(trim(v2));
            ||| (b1.len() <= 8 && b2.len() <= 8)
            ||| (b1.len() > 8 && b2.len() > 8 && b1.take(4) == b2.take(4) && b1.skip(b1.len() - 4)
                == b2.skip(b2.len() - 4))
        }),
    ensures
        mask_spec(true, v1) == mask_spec(true, v2),
{
}

} // verus!

verus! {

/// The next step of editing a field.
pub enum EditStep {
    /// The answer cancels the edit; nothing is saved.
    Unchanged,
    /// The value is refused, with this message.
    Invalid(String),
    /// The value is a dangerous change: ask for an uppercase `YES` first.
    AskConfirm(String),
    /// The dangerous change was not confirmed; nothing is saved.
    Declined,
    /// Save this value (the file is backed up first).
    Save(String),
}

/// An edit step's tag and text, for contracts.
pub open spec fn edit_view(s: EditStep) -> (u8, Seq<char>) {
    match s {
        EditStep::Unchanged => (0, Seq::empty()),
        EditStep::Invalid(e) => (1, e@),
        EditStep::AskConfirm(v) => (2, v@),
        EditStep::Declined => (3, Seq::empty()),
        EditStep::Save(v) => (4, v@),
    }
}

/// What follows an answer `raw` to the edit prompt for `key`, whose checked
/// form is `checked`: a cancelling answer changes nothing; a refused value is
/// reported; an accepted value is saved, or first confirmed when the change is
/// dangerous.
pub open spec fn edit_first_spec(key: Seq<char>, raw: Seq<char>, checked: Result<Seq<char>, Seq<char>>) -> (
    u8,
    Seq<char>,
) {
    if raw.len() == 0 || raw == "0"@ {
        (0, Seq::empty())
    } else {
        match checked {
            Err(e) => (1, e),
            Ok(v) => if is_risky_spec(key, v) {
                (2, v)
            } else {
                (4, v)
            },
        }
    }
}

/// What follows an answer to the edit prompt.
pub fn edit_first(key: &str, raw: &str, checked: Result<String, String>) -> (r: EditStep)
    ensures
        edit_view(r) == edit_first_spec(
            key@,
            raw@,
            match checked {
                Ok(v) => Ok(v@),
                Err(e) => Err(e@),
            },
        ),
{
    if is_cancel(raw) {
        return EditStep::Unchanged;
    }
    match checked {
        Err(e) => EditStep::Invalid(e),
        Ok(v) => if is_risky(key, v.as_str()) {
            EditStep::AskConfirm(v)
        } else {
            EditStep::Save(v)
        },
    }
}

/// What follows the confirmation prompt for the dangerous value `val`: only
/// an uppercase `YES` saves it.
pub open spec fn edit_confirmed_spec(answer: Seq<char>, val: Seq<char>) -> (u8, Seq<char>) {
    if answer == "YES"@ {
        (4, val)
    } else {
        (3, Seq::empty())
    }
}

/// What follows the confirmation prompt for a dangerous value.
pub fn edit_confirmed(answer: &str, val: String) -> (r: EditStep)
    ensures
        edit_view(r) == edit_confirmed_spec(answer@, val@),
{
    if str_eq(answer, "YES") {
        EditStep::Save(val)
    } else {
        EditStep::Declined
    }
}

/// Law: a dangerous change is never saved straight from the edit prompt; it
/// is saved only after an uppercase `YES`.
pub proof fn lemma_danger_needs_yes(key: Seq<char>, raw: Seq<char>, checked: Result<Seq<char>, Seq<char>>, answer: Seq<char>, val: Seq<char>)
    ensures
        edit_first_spec(key, raw, checked).0 == 4 ==> !is_risky_spec(key, edit_first_spec(key, raw, checked).1),
        edit_confirmed_spec(answer, val).0 == 4 ==> answer == "YES"@,
{
}

/// The next step of starting the background service.
pub enum StartStep {
    /// It already runs.
    AlreadyRunning,
    /// Live trading is unlocked: ask for an uppercase `YES` first.
    AskConfirm,
    /// Live start not confirmed.
    Declined,
    /// Live trading lacks some credentials.
    MissingCredentials,
    /// Start it with this flag; `true` when the child skips its own prompt.
    Launch(&'static str, bool),
}

/// The first step of starting the service: nothing when it runs already;
/// with both safety locks open, a confirmation; else a paper-trading start.
pub fn start_first(running: bool, can_trade_live: bool) -> (r: StartStep)
    ensures
        running ==> r is AlreadyRunning,
        !running && can_trade_live ==> r is AskConfirm,
        !running && !can_trade_live ==> (r matches StartStep::Launch(f, y) && f@ == "--simulation"@ && !y),
{
    if running {
        StartStep::AlreadyRunning
    } else if can_trade_live {
        StartStep::AskConfirm
    } else {
        let (f, y) = launch_flag(false);
        StartStep::Launch(f, y)
    }
}

/// The step after the live-start confirmation, with `missing` credentials
/// unset: only an uppercase `YES` with every credential set starts live.
pub fn start_confirmed(answer: &str, missing: usize) -> (r: StartStep)
    ensures
        answer@ != "YES"@ ==> r is Declined,
        answer@ == "YES"@ && missing > 0 ==> r is MissingCredentials,
        answer@ == "YES"@ && missing == 0 ==> (r matches StartStep::Launch(f, y) && f@ == "--live"@ && y),
{
    if !str_eq(answer, "YES") {
        StartStep::Declined
    } else if missing > 0 {
        StartStep::MissingCredentials
    } else {
        let (f, y) = launch_flag(true);
        StartStep::Launch(f, y)
    }
}

/// A step of updating the program.
#[derive(PartialEq, Eq, Structural, Clone, Copy)]
pub enum UpdateStage {
    /// Download the latest released binary.
    Download,
    /// Check that the program runs from a git checkout.
    CheckGit,
    /// `git pull --ff-only`.
    Pull,
    /// `cargo build --release`.
    Build,
}

/// What the update does next.
#[derive(PartialEq, Eq, Structural, Clone, Copy)]
pub enum UpdateAction {
    Run(UpdateStage),
    /// Start the service again, then stop.
    RestartService,
    /// Stop.
    Finish,
}

/// The end of an update: restart the service when it ran before.
pub open spec fn update_end(was_running: bool) -> UpdateAction {
    if was_running {
        UpdateAction::RestartService
    } else {
        UpdateAction::Finish
    }
}

/// After `stage` succeeded (`ok`) or failed: a downloaded binary ends the
/// update; a failed download falls back to building from source (git check,
/// pull, build, each only after the one before succeeded); a build, or any
/// failure from source, ends it. The end restarts the service when it ran
/// before the update.
pub open spec fn update_next_spec(stage: UpdateStage, ok: bool, was_running: bool) -> UpdateAction {
    match stage {
        UpdateStage::Download => if ok {
            update_end(was_running)
        } else {
            UpdateAction::Run(UpdateStage::CheckGit)
        },
        UpdateStage::CheckGit => if ok {
            UpdateAction::Run(UpdateStage::Pull)
        } else {
            update_end(was_running)
        },
        UpdateStage::Pull => if ok {
            UpdateAction::Run(UpdateStage::Build)
        } else {
            update_end(was_running)
        },
        UpdateStage::Build => update_end(was_running),
    }
}

/// What the update does after `stage` succeeded or failed.
pub fn update_next(stage: UpdateStage, ok: bool, was_running: bool) -> (r: UpdateAction)
    ensures
        r == update_next_spec(stage, ok, was_running),
{
    let end = if was_running {
        UpdateAction::RestartService
    } else {
        UpdateAction::Finish
    };
    match stage {
        UpdateStage::Download => if ok {
            end
        } else {
            UpdateAction::Run(UpdateStage::CheckGit)
        },
        UpdateStage::CheckGit => if ok {
            UpdateAction::Run(UpdateStage::Pull)
        } else {
            end
        },
        UpdateStage::Pull => if ok {
            UpdateAction::Run(UpdateStage::Build)
        } else {
            end
        },
        UpdateStage::Build => end,
    }
}

/// The actions of an update that starts at `stage` and whose steps have the
/// outcomes `outs`, up to its end.
pub open spec fn update_trace(stage: UpdateStage, outs: Seq<bool>, was_running: bool) -> Seq<UpdateAction>
    decreases outs.len(),
{
    if outs.len() == 0 {
        Seq::empty()
    } else {
        let a = update_next_spec(stage, outs[0], was_running);
        match a {
            UpdateAction::Run(next) => seq![a] + update_trace(next, outs.drop_first(), was_running),
            _ => seq![a],
        }
    }
}

/// Law: whatever the outcomes of its steps, an update ends within four steps;
/// it restarts the service exactly once, as its last action, when the service
/// was running, and never otherwise; and it builds only right after a
/// successful pull.
pub proof fn lemma_update_runs(outs: Seq<bool>, was_running: bool)
    requires
        outs.len() >= 4,
    ensures
        ({
            let t = update_trace(UpdateStage::Download, outs, was_running);
            &&& 1 <= t.len() <= 4
            &&& t.last() == update_end(was_running)
            &&& forall|k: int| 0 <= k < t.len() - 1 ==> (#[trigger] t[k]) is Run
            &&& forall|k: int| 0 <= k < t.len() && #[trigger] t[k] == UpdateAction::Run(UpdateStage::Build)
                ==> k >= 1 && t[k - 1] == UpdateAction::Run(UpdateStage::Pull) && outs[k]
        }),
{
    reveal_with_fuel(update_trace, 5);
    let t = update_trace(UpdateStage::Download, outs, was_running);
    let o1 = outs.drop_first();
    let o2 = o1.drop_first();
    let o3 = o2.drop_first();
    assert(o1[0] == outs[1] && o2[0] == outs[2] && o3[0] == outs[3]);
    let e = update_end(was_running);
    if outs[0] {
        assert(t == seq![e]);
    } else if !outs[1] {
        assert(t == seq![UpdateAction::Run(UpdateStage::CheckGit), e]);
    } else if !outs[2] {
        assert(t == seq![UpdateAction::Run(UpdateStage::CheckGit), UpdateAction::Run(UpdateStage::Pull), e]);
    } else {
        assert(t == seq![
            UpdateAction::Run(UpdateStage::CheckGit),
            UpdateAction::Run(UpdateStage::Pull),
            UpdateAction::Run(UpdateStage::Build),
            e,
        ]);
    }
}

} // verus!

verus! {

/// A configured value that counts as not set: blank, or one of the
/// placeholders `0x...` and `...`.
pub open spec fn is_unset(v: Seq<char>) -> bool {
    trim(v).len() == 0 || trim(v) == "0x..."@ || trim(v) == "..."@
}

/// The five credentials that live orders are signed and sent with.
pub open spec fn credential_keys() -> Seq<Seq<char>> {
    seq![
        "POLYMARKET_PRIVATE_KEY"@,
        "POLYMARKET_API_KEY"@,
        "POLYMARKET_API_SECRET"@,
        "POLYMARKET_API_PASSPHRASE"@,
        "PM_FUNDER_ADDRESS"@,
    ]
}

/// The value that `pairs` gives `key` (empty when none does).
pub open spec fn value_in(ps: Seq<(Seq<char>, Seq<char>)>, key: Seq<char>) -> Seq<char> {
    match first_value(ps, key) {
        Some(v) => v,
        None => Seq::empty(),
    }
}

/// The keys among `keys[..n]` whose value in `ps` is not set, in order.
pub open spec fn missing_upto(keys: Seq<Seq<char>>, ps: Seq<(Seq<char>, Seq<char>)>, n: int) -> Seq<
    Seq<char>,
>
    decreases n,
{
    if n <= 0 {
        Seq::empty()
    } else {
        missing_upto(keys, ps, n - 1) + if is_unset(value_in(ps, keys[n - 1])) {
            seq![keys[n - 1]]
        } else {
            Seq::empty()
        }
    }
}

fn is_unset_str(v: &str) -> (b: bool)
    ensures
        b == is_unset(v@),
{
    let t = trim_str(v);
    t.as_str().unicode_len() == 0 || str_eq(t.as_str(), "0x...") || str_eq(t.as_str(), "...")
}

/// The credentials that the configuration's pairs leave unset, in order;
/// live trading cannot start while any is.
pub fn missing_credentials(pairs: &Vec<(String, String)>) -> (r: Vec<&'static str>)
    ensures
        r@.map_values(|k: &'static str| k@) == missing_upto(
            credential_keys(),
            pair_views(pairs@),
            5,
        ),
{
    let keys: [&'static str; 5] = [
        "POLYMARKET_PRIVATE_KEY",
        "POLYMARKET_API_KEY",
        "POLYMARKET_API_SECRET",
        "POLYMARKET_API_PASSPHRASE",
        "PM_FUNDER_ADDRESS",
    ];
    assert(keys@.map_values(|k: &'static str| k@) =~= credential_keys());
    let mut r: Vec<&'static str> = Vec::new();
    let mut i: usize = 0;
    while i < 5
        invariant
            i <= 5,
            keys@.map_values(|k: &'static str| k@) == credential_keys(),
            r@.map_values(|k: &'static str| k@) == missing_upto(
                credential_keys(),
                pair_views(pairs@),
                i as int,
            ),
        decreases 5 - i,
    {
        assert(credential_keys()[i as int] == keys@[i as int]@);
        let v = lookup(pairs, keys[i]);
        let ghost before = r@;
        if is_unset_str(v.as_str()) {
            r.push(keys[i]);
            assert(r@.map_values(|k: &'static str| k@) =~= before.map_values(|k: &'static str| k@)
                + seq![keys@[i as int]@]);
        } else {
            assert(r@.map_values(|k: &'static str| k@) =~= before.map_values(|k: &'static str| k@)
                + Seq::<Seq<char>>::empty());
        }
        i = i + 1;
    }
    r
}

} // verus!

verus! {

/// The main menu's items in the order in which it prints them, numbered from 1.
pub open spec fn menu_items() -> Seq<MenuAction> {
    seq![
        MenuAction::EditConfig,
        MenuAction::ViewConfig,
        MenuAction::TestApi,
        MenuAction::Stats,
        MenuAction::StartService,
        MenuAction::StopService,
        MenuAction::RestartService,
        MenuAction::ViewLogs,
        MenuAction::ToggleDryRun,
        MenuAction::TuneStrategy,
        MenuAction::ClearSimData,
        MenuAction::Update,
    ]
}

/// Law: typing the number printed before a main-menu item picks that item,
/// `0` or `q` quits, and any other answer picks nothing.
pub proof fn lemma_menu_numbers(n: int, c: Seq<char>)
    ensures
        1 <= n <= 12 ==> menu_action_spec(decimal(n as nat)) == Some(menu_items()[n - 1]),
        menu_action_spec("0"@) == Some(MenuAction::Quit),
        menu_action_spec("q"@) == Some(MenuAction::Quit),
        c != "0"@ && c != "q"@ && (forall|k: nat| 1 <= k <= 12 ==> c != #[trigger] decimal(k))
            ==> menu_action_spec(c) is None,
{
    reveal_strlit("0");
    reveal_strlit("1");
    reveal_strlit("2");
    reveal_strlit("3");
    reveal_strlit("4");
    reveal_strlit("5");
    reveal_strlit("6");
    reveal_strlit("7");
    reveal_strlit("8");
    reveal_strlit("9");
    reveal_strlit("10");
    reveal_strlit("11");
    reveal_strlit("12");
    reveal_strlit("q");
    reveal_with_fuel(decimal, 2);
    assert("0"@[0] == '0' && "1"@[0] == '1' && "2"@[0] == '2' && "3"@[0] == '3');
    assert("4"@[0] == '4' && "5"@[0] == '5' && "6"@[0] == '6' && "7"@[0] == '7');
    assert("8"@[0] == '8' && "9"@[0] == '9' && "q"@[0] == 'q');
    assert("10"@[1] == '0' && "11"@[1] == '1' && "12"@[1] == '2');
    assert(decimal(1) =~= "1"@);
    assert(decimal(2) =~= "2"@);
    assert(decimal(3) =~= "3"@);
    assert(decimal(4) =~= "4"@);
    assert(decimal(5) =~= "5"@);
    assert(decimal(6) =~= "6"@);
    assert(decimal(7) =~= "7"@);
    assert(decimal(8) =~= "8"@);
    assert(decimal(9) =~= "9"@);
    assert(decimal(10) =~= "10"@);
    assert(decimal(11) =~= "11"@);
    assert(decimal(12) =~= "12"@);
}

/// The answers that a boolean field reads as true (once trimmed and lowercased).
pub open spec fn true_words() -> Seq<Seq<char>> {
    seq!["1"@, "true"@, "yes"@, "y"@, "on"@]
}

/// The answers that a boolean field reads as false (once trimmed and lowercased).
pub open spec fn false_words() -> Seq<Seq<char>> {
    seq!["0"@, "false"@, "no"@, "n"@, "off"@]
}

/// Law: a boolean field takes each of `1`, `true`, `yes`, `y`, `on` (in any
/// case, around any whitespace) as `true`, each of `0`, `false`, `no`, `n`,
/// `off` as `false`, and refuses every other answer.
pub proof fn lemma_bool_answers(raw: Seq<char>)
    ensures
        true_words().contains(lowered(trim(raw))) ==> validate_spec(Kind::Bool, raw) == Ok::<
            Seq<char>,
            Seq<char>,
        >("true"@),
        false_words().contains(lowered(trim(raw))) ==> validate_spec(Kind::Bool, raw) == Ok::<
            Seq<char>,
            Seq<char>,
        >("false"@),
        !true_words().contains(lowered(trim(raw))) && !false_words().contains(lowered(trim(raw)))
            ==> validate_spec(Kind::Bool, raw) is Err,
{
    let w = lowered(trim(raw));
    reveal_strlit("1");
    reveal_strlit("true");
    reveal_strlit("yes");
    reveal_strlit("y");
    reveal_strlit("on");
    reveal_strlit("0");
    reveal_strlit("false");
    reveal_strlit("no");
    reveal_strlit("n");
    reveal_strlit("off");
    assert("1"@[0] == '1' && "true"@[0] == 't' && "yes"@[0] == 'y' && "y"@[0] == 'y');
    assert("on"@[0] == 'o' && "0"@[0] == '0' && "false"@[0] == 'f' && "no"@[0] == 'n');
    assert("n"@[0] == 'n' && "off"@[0] == 'o' && "on"@[1] == 'n' && "off"@[1] == 'f');
    if true_words().contains(w) {
        let i = choose|i: int| 0 <= i < 5 && true_words()[i] == w;
        assert(w == true_words()[i]);
    }
    if false_words().contains(w) {
        let i = choose|i: int| 0 <= i < 5 && false_words()[i] == w;
        assert(w == false_words()[i]);
    }
    if bool_word_spec(w) is Some {
        if w == "1"@ { assert(true_words()[0] == w); }
        if w == "true"@ { assert(true_words()[1] == w); }
        if w == "yes"@ { assert(true_words()[2] == w); }
        if w == "y"@ { assert(true_words()[3] == w); }
        if w == "on"@ { assert(true_words()[4] == w); }
        if w == "0"@ { assert(false_words()[0] == w); }
        if w == "false"@ { assert(false_words()[1] == w); }
        if w == "no"@ { assert(false_words()[2] == w); }
        if w == "n"@ { assert(false_words()[3] == w); }
        if w == "off"@ { assert(false_words()[4] == w); }
    }
}

/// Whether a `DRY_RUN` value, lowercased, keeps the bot on paper: every value
/// but `false`, `0` and `no` does.
pub open spec fn now_dry(lowered: Seq<char>) -> bool {
    !(lowered == "false"@ || lowered == "0"@ || lowered == "no"@)
}

/// Law: toggling `DRY_RUN` writes `true` or `false`, and the value written is
/// dry exactly when the current one is not.
pub proof fn lemma_toggle_flips(cur: Seq<char>)
    ensures
        toggle_result_is_word(toggled_spec(lowered(cur))),
        now_dry(lowered(toggled_spec(lowered(cur)))) == !now_dry(lowered(cur)),
{
    reveal_strlit("true");
    reveal_strlit("false");
    reveal_strlit("0");
    reveal_strlit("no");
    let t = "true"@;
    let f = "false"@;
    assert(is_ascii_seq(t));
    assert(is_ascii_seq(f));
    assert(t.map_values(|c: char| ascii_lower(c)) =~= t);
    assert(f.map_values(|c: char| ascii_lower(c)) =~= f);
    assert(lowered(t) == t);
    assert(lowered(f) == f);
}

/// A value that a boolean field saves: `true` or `false`.
pub open spec fn toggle_result_is_word(v: Seq<char>) -> bool {
    v == "true"@ || v == "false"@
}

/// Law: in a list of `len` entries, typing the number printed before an
/// entry picks that entry, a larger number asks again, and `0` or nothing
/// goes back.
pub proof fn lemma_pick_numbers(n: nat, len: nat)
    requires
        len <= usize::MAX,
    ensures
        1 <= n <= len ==> pick_spec(decimal(n), len) == Pick::Entry((n - 1) as usize),
        n > len ==> pick_spec(decimal(n), len) == Pick::Again,
        pick_spec("0"@, len) == Pick::Back,
        pick_spec(Seq::<char>::empty(), len) == Pick::Back,
{
    reveal_strlit("0");
    crate::decimal::lemma_decimal_value(n);
    let d = decimal(n);
    assert(crate::decimal::is_digit(d[0]));
    if n >= 1 {
        if d == "0"@ {
            assert(d.len() == 1 && d.last() == '0');
            assert(d.drop_last() =~= Seq::<char>::empty());
            reveal_with_fuel(crate::decimal::digits_value, 2);
            assert(crate::decimal::digits_value(d) == 0);
        }
    }
}

/// Law: live trading is unlocked only when the `DRY_RUN` value is one that
/// the toggle counts as not dry.
pub proof fn lemma_unlocked_is_not_dry(dry: Seq<char>, live: Seq<char>)
    ensures
        live_unlocked_spec(dry, live) ==> !now_dry(lowered(dry)),
{
    if live_unlocked_spec(dry, live) {
        reveal_strlit("false");
        let f = "false"@;
        assert(f[0] == 'f' && f[1] == 'a' && f[2] == 'l' && f[3] == 's' && f[4] == 'e');
        assert forall|i: int| 0 <= i < dry.len() implies (#[trigger] dry[i] as u32) < 128 by {
            assert(ascii_lower(dry[i]) == ascii_lower(f[i]));
        }
        assert(dry.map_values(|c: char| ascii_lower(c)) =~= f);
    }
}

} // verus!
