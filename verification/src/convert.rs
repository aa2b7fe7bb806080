//! Conversion of the game's recipe data into the catalog files: recipes of
//! the thermal bank become power recipes, counts are checked, and items and
//! facilities get their Chinese names.
//!
//! Reading the Lua recipe files and writing TOML happen outside this
//! library; the rows and checks are here.

use vstd::prelude::*;

use crate::load_error::{first_problem, lemma_first_problem_stays};
use crate::sorting::{
    lemma_sort_stable_by_contains, lemma_sort_stable_view, sort_by_order, sort_stable_by, SortOrder,
};
use crate::strings::{
    chars_lt, i64_to_decimal, lemma_chars_lt_irreflexive, lemma_chars_lt_total,
    lemma_chars_lt_transitive, push_str, signed_decimal, str_chars, str_eq, str_lt,
    string_from_chars, string_of,
};

verus! {

// ---------------------------------------------------------------------------
// Chinese names
// ---------------------------------------------------------------------------

/// The Chinese name of a facility, for the facilities the game data knows.
pub open spec fn spec_facility_zh(name: Seq<char>) -> Option<Seq<char>> {
    if name == "Refining Unit"@ {
        Some("精炼炉"@)
    } else if name == "Shredding Unit"@ {
        Some("粉碎机"@)
    } else if name == "Fitting Unit"@ {
        Some("配件机"@)
    } else if name == "Moulding Unit"@ {
        Some("塑形机"@)
    } else if name == "Seed-Picking Unit"@ {
        Some("采种机"@)
    } else if name == "Planting Unit"@ {
        Some("种植机"@)
    } else if name == "Gearing Unit"@ {
        Some("装备原件机"@)
    } else if name == "Filling Unit"@ {
        Some("灌装机"@)
    } else if name == "Packaging Unit"@ {
        Some("封装机"@)
    } else if name == "Grinding Unit"@ {
        Some("研磨机"@)
    } else if name == "Reactor Crucible"@ {
        Some("反应池"@)
    } else if name == "Forge of the Sky"@ {
        Some("天有洪炉"@)
    } else if name == "Separating Unit"@ {
        Some("拆解机"@)
    } else if name == "Thermal Bank"@ {
        Some("热容池"@)
    } else {
        None
    }
}

/// The Chinese name of a facility (see [`spec_facility_zh`]).
pub fn facility_zh(name: &str) -> (r: Option<&'static str>)
    ensures
        match r {
            Some(z) => spec_facility_zh(name@) == Some(z@),
            None => spec_facility_zh(name@) is None,
        },
{
    if str_eq(name, "Refining Unit") {
        return Some("精炼炉");
    }
    if str_eq(name, "Shredding Unit") {
        return Some("粉碎机");
    }
    if str_eq(name, "Fitting Unit") {
        return Some("配件机");
    }
    if str_eq(name, "Moulding Unit") {
        return Some("塑形机");
    }
    if str_eq(name, "Seed-Picking Unit") {
        return Some("采种机");
    }
    if str_eq(name, "Planting Unit") {
        return Some("种植机");
    }
    if str_eq(name, "Gearing Unit") {
        return Some("装备原件机");
    }
    if str_eq(name, "Filling Unit") {
        return Some("灌装机");
    }
    if str_eq(name, "Packaging Unit") {
        return Some("封装机");
    }
    if str_eq(name, "Grinding Unit") {
        return Some("研磨机");
    }
    if str_eq(name, "Reactor Crucible") {
        return Some("反应池");
    }
    if str_eq(name, "Forge of the Sky") {
        return Some("天有洪炉");
    }
    if str_eq(name, "Separating Unit") {
        return Some("拆解机");
    }
    if str_eq(name, "Thermal Bank") {
        return Some("热容池");
    }
    None
}

/// The Chinese name of an item listed by name.
pub open spec fn spec_direct_item_zh(name: Seq<char>) -> Option<Seq<char>> {
    if name == "Originium Ore"@ {
        Some("源石矿"@)
    } else if name == "Originium Powder"@ {
        Some("源石粉"@)
    } else if name == "Dense Originium Powder"@ {
        Some("浓缩源石粉"@)
    } else if name == "Origocrust"@ {
        Some("晶体外壳"@)
    } else if name == "Origocrust Powder"@ {
        Some("晶体外壳粉"@)
    } else if name == "Dense Origocrust Powder"@ {
        Some("浓缩晶体外壳粉"@)
    } else if name == "Packed Origocrust"@ {
        Some("封装晶体外壳"@)
    } else if name == "Ferrium Ore"@ {
        Some("铁矿"@)
    } else if name == "Ferrium"@ {
        Some("铁"@)
    } else if name == "Ferrium Part"@ {
        Some("铁制零件"@)
    } else if name == "Ferrium Powder"@ {
        Some("铁粉"@)
    } else if name == "Dense Ferrium Powder"@ {
        Some("浓缩铁粉"@)
    } else if name == "Ferrium Component"@ {
        Some("铁制部件"@)
    } else if name == "Ferrium Bottle"@ {
        Some("铁质瓶"@)
    } else if name == "Amethyst Ore"@ {
        Some("紫晶矿"@)
    } else if name == "Amethyst Fiber"@ {
        Some("紫晶纤维"@)
    } else if name == "Amethyst Part"@ {
        Some("紫晶零件"@)
    } else if name == "Amethyst Powder"@ {
        Some("紫晶粉"@)
    } else if name == "Amethyst Component"@ {
        Some("紫晶部件"@)
    } else if name == "Amethyst Bottle"@ {
        Some("紫晶质瓶"@)
    } else if name == "Cryston Part"@ {
        Some("晶通零件"@)
    } else if name == "Cryston Fiber"@ {
        Some("晶通纤维"@)
    } else if name == "Cryston Powder"@ {
        Some("晶通粉"@)
    } else if name == "Cryston Component"@ {
        Some("晶通部件"@)
    } else if name == "Cryston Bottle"@ {
        Some("晶通质瓶"@)
    } else if name == "Xiranite"@ {
        Some("希然石"@)
    } else if name == "Liquid Xiranite"@ {
        Some("液态希然石"@)
    } else if name == "Xiranite Component"@ {
        Some("希然石部件"@)
    } else if name == "Clean Water"@ {
        Some("清水"@)
    } else if name == "Jincao"@ {
        Some("金草"@)
    } else if name == "Jincao Powder"@ {
        Some("金草粉"@)
    } else if name == "Jincao Solution"@ {
        Some("金草溶液"@)
    } else if name == "Jincao Drink"@ {
        Some("金草饮料"@)
    } else if name == "Yazhen"@ {
        Some("雅针"@)
    } else if name == "Yazhen Powder"@ {
        Some("雅针粉"@)
    } else if name == "Yazhen Solution"@ {
        Some("雅针溶液"@)
    } else if name == "Yazhen Syringe (C)"@ {
        Some("雅针注射器(C)"@)
    } else if name == "Sandleaf"@ {
        Some("沙叶"@)
    } else if name == "Sandleaf Powder"@ {
        Some("沙叶粉"@)
    } else if name == "Buckflower"@ {
        Some("荞愈花"@)
    } else if name == "Buckflower Powder"@ {
        Some("荞愈花粉"@)
    } else if name == "Ground Buckflower Powder"@ {
        Some("研磨荞愈花粉"@)
    } else if name == "Citrome"@ {
        Some("柑实"@)
    } else if name == "Citrome Powder"@ {
        Some("柑实粉"@)
    } else if name == "Ground Citrome Powder"@ {
        Some("研磨柑实粉"@)
    } else if name == "Buck Capsule (A)"@ {
        Some("精选荞愈胶囊"@)
    } else if name == "Buck Capsule (B)"@ {
        Some("优质荞愈胶囊"@)
    } else if name == "Buck Capsule (C)"@ {
        Some("荞愈胶囊"@)
    } else if name == "Canned Citrome (A)"@ {
        Some("精选柑实罐头"@)
    } else if name == "Canned Citrome (B)"@ {
        Some("优质柑实罐头"@)
    } else if name == "Canned Citrome (C)"@ {
        Some("柑实罐头"@)
    } else if name == "LC Valley Battery"@ {
        Some("低容谷地电池"@)
    } else if name == "SC Valley Battery"@ {
        Some("中容谷地电池"@)
    } else if name == "HC Valley Battery"@ {
        Some("高容谷地电池"@)
    } else if name == "LC Wuling Battery"@ {
        Some("低容五陵电池"@)
    } else if name == "Carbon"@ {
        Some("碳"@)
    } else if name == "Carbon Powder"@ {
        Some("碳粉"@)
    } else if name == "Dense Carbon Powder"@ {
        Some("浓缩碳粉"@)
    } else if name == "Stabilized Carbon"@ {
        Some("稳定碳"@)
    } else if name == "Steel"@ {
        Some("钢"@)
    } else if name == "Steel Part"@ {
        Some("钢制零件"@)
    } else if name == "Steel Bottle"@ {
        Some("钢质瓶"@)
    } else if name == "Wood"@ {
        Some("木材"@)
    } else if name == "Power"@ {
        Some("电力"@)
    } else if name == "Industrial Explosive"@ {
        Some("工业炸药"@)
    } else if name == "Aketine"@ {
        Some("阿刻汀"@)
    } else if name == "Aketine Powder"@ {
        Some("阿刻汀粉"@)
    } else if name == "Aketine Seed"@ {
        Some("阿刻汀种子"@)
    } else if name == "Amber Rice"@ {
        Some("琥珀米"@)
    } else if name == "Amber Rice Seed"@ {
        Some("琥珀米种子"@)
    } else if name == "Redjade Ginseng"@ {
        Some("赤玉人参"@)
    } else if name == "Reed Rye"@ {
        Some("芦苇黑麦"@)
    } else if name == "Tartpepper"@ {
        Some("酸椒"@)
    } else if name == "Bumper-Rich"@ {
        Some("富缓冲剂"@)
    } else if name == "Burdo-Muck"@ {
        Some("伯尔多泥"@)
    } else {
        None
    }
}

/// The Chinese name of an item listed by name (see [`spec_direct_item_zh`]).
pub fn direct_item_zh(name: &str) -> (r: Option<&'static str>)
    ensures
        match r {
            Some(z) => spec_direct_item_zh(name@) == Some(z@),
            None => spec_direct_item_zh(name@) is None,
        },
{
    if str_eq(name, "Originium Ore") {
        return Some("源石矿");
    }
    if str_eq(name, "Originium Powder") {
        return Some("源石粉");
    }
    if str_eq(name, "Dense Originium Powder") {
        return Some("浓缩源石粉");
    }
    if str_eq(name, "Origocrust") {
        return Some("晶体外壳");
    }
    if str_eq(name, "Origocrust Powder") {
        return Some("晶体外壳粉");
    }
    if str_eq(name, "Dense Origocrust Powder") {
        return Some("浓缩晶体外壳粉");
    }
    if str_eq(name, "Packed Origocrust") {
        return Some("封装晶体外壳");
    }
    if str_eq(name, "Ferrium Ore") {
        return Some("铁矿");
    }
    if str_eq(name, "Ferrium") {
        return Some("铁");
    }
    if str_eq(name, "Ferrium Part") {
        return Some("铁制零件");
    }
    if str_eq(name, "Ferrium Powder") {
        return Some("铁粉");
    }
    if str_eq(name, "Dense Ferrium Powder") {
        return Some("浓缩铁粉");
    }
    if str_eq(name, "Ferrium Component") {
        return Some("铁制部件");
    }
    if str_eq(name, "Ferrium Bottle") {
        return Some("铁质瓶");
    }
    if str_eq(name, "Amethyst Ore") {
        return Some("紫晶矿");
    }
    if str_eq(name, "Amethyst Fiber") {
        return Some("紫晶纤维");
    }
    if str_eq(name, "Amethyst Part") {
        return Some("紫晶零件");
    }
    if str_eq(name, "Amethyst Powder") {
        return Some("紫晶粉");
    }
    if str_eq(name, "Amethyst Component") {
        return Some("紫晶部件");
    }
    if str_eq(name, "Amethyst Bottle") {
        return Some("紫晶质瓶");
    }
    if str_eq(name, "Cryston Part") {
        return Some("晶通零件");
    }
    if str_eq(name, "Cryston Fiber") {
        return Some("晶通纤维");
    }
    if str_eq(name, "Cryston Powder") {
        return Some("晶通粉");
    }
    if str_eq(name, "Cryston Component") {
        return Some("晶通部件");
    }
    if str_eq(name, "Cryston Bottle") {
        return Some("晶通质瓶");
    }
    if str_eq(name, "Xiranite") {
        return Some("希然石");
    }
    if str_eq(name, "Liquid Xiranite") {
        return Some("液态希然石");
    }
    if str_eq(name, "Xiranite Component") {
        return Some("希然石部件");
    }
    if str_eq(name, "Clean Water") {
        return Some("清水");
    }
    if str_eq(name, "Jincao") {
        return Some("金草");
    }
    if str_eq(name, "Jincao Powder") {
        return Some("金草粉");
    }
    if str_eq(name, "Jincao Solution") {
        return Some("金草溶液");
    }
    if str_eq(name, "Jincao Drink") {
        return Some("金草饮料");
    }
    if str_eq(name, "Yazhen") {
        return Some("雅针");
    }
    if str_eq(name, "Yazhen Powder") {
        return Some("雅针粉");
    }
    if str_eq(name, "Yazhen Solution") {
        return Some("雅针溶液");
    }
    if str_eq(name, "Yazhen Syringe (C)") {
        return Some("雅针注射器(C)");
    }
    if str_eq(name, "Sandleaf") {
        return Some("沙叶");
    }
    if str_eq(name, "Sandleaf Powder") {
        return Some("沙叶粉");
    }
    if str_eq(name, "Buckflower") {
        return Some("荞愈花");
    }
    if str_eq(name, "Buckflower Powder") {
        return Some("荞愈花粉");
    }
    if str_eq(name, "Ground Buckflower Powder") {
        return Some("研磨荞愈花粉");
    }
    if str_eq(name, "Citrome") {
        return Some("柑实");
    }
    if str_eq(name, "Citrome Powder") {
        return Some("柑实粉");
    }
    if str_eq(name, "Ground Citrome Powder") {
        return Some("研磨柑实粉");
    }
    if str_eq(name, "Buck Capsule (A)") {
        return Some("精选荞愈胶囊");
    }
    if str_eq(name, "Buck Capsule (B)") {
        return Some("优质荞愈胶囊");
    }
    if str_eq(name, "Buck Capsule (C)") {
        return Some("荞愈胶囊");
    }
    if str_eq(name, "Canned Citrome (A)") {
        return Some("精选柑实罐头");
    }
    if str_eq(name, "Canned Citrome (B)") {
        return Some("优质柑实罐头");
    }
    if str_eq(name, "Canned Citrome (C)") {
        return Some("柑实罐头");
    }
    if str_eq(name, "LC Valley Battery") {
        return Some("低容谷地电池");
    }
    if str_eq(name, "SC Valley Battery") {
        return Some("中容谷地电池");
    }
    if str_eq(name, "HC Valley Battery") {
        return Some("高容谷地电池");
    }
    if str_eq(name, "LC Wuling Battery") {
        return Some("低容五陵电池");
    }
    if str_eq(name, "Carbon") {
        return Some("碳");
    }
    if str_eq(name, "Carbon Powder") {
        return Some("碳粉");
    }
    if str_eq(name, "Dense Carbon Powder") {
        return Some("浓缩碳粉");
    }
    if str_eq(name, "Stabilized Carbon") {
        return Some("稳定碳");
    }
    if str_eq(name, "Steel") {
        return Some("钢");
    }
    if str_eq(name, "Steel Part") {
        return Some("钢制零件");
    }
    if str_eq(name, "Steel Bottle") {
        return Some("钢质瓶");
    }
    if str_eq(name, "Wood") {
        return Some("木材");
    }
    if str_eq(name, "Power") {
        return Some("电力");
    }
    if str_eq(name, "Industrial Explosive") {
        return Some("工业炸药");
    }
    if str_eq(name, "Aketine") {
        return Some("阿刻汀");
    }
    if str_eq(name, "Aketine Powder") {
        return Some("阿刻汀粉");
    }
    if str_eq(name, "Aketine Seed") {
        return Some("阿刻汀种子");
    }
    if str_eq(name, "Amber Rice") {
        return Some("琥珀米");
    }
    if str_eq(name, "Amber Rice Seed") {
        return Some("琥珀米种子");
    }
    if str_eq(name, "Redjade Ginseng") {
        return Some("赤玉人参");
    }
    if str_eq(name, "Reed Rye") {
        return Some("芦苇黑麦");
    }
    if str_eq(name, "Tartpepper") {
        return Some("酸椒");
    }
    if str_eq(name, "Bumper-Rich") {
        return Some("富缓冲剂");
    }
    if str_eq(name, "Burdo-Muck") {
        return Some("伯尔多泥");
    }
    None
}


/// The position of the last ` (` that ends before `end` (the space's index).
pub open spec fn last_paren_open(s: Seq<char>, end: int) -> Option<int>
    decreases end,
{
    if end < 1 || end >= s.len() {
        None
    } else if s[end - 1] == ' ' && s[end] == '(' {
        Some(end - 1)
    } else {
        last_paren_open(s, end - 1)
    }
}

proof fn lemma_last_paren_open(s: Seq<char>, end: int)
    ensures
        last_paren_open(s, end) matches Some(k) ==> 0 <= k && k + 1 <= end < s.len() && s[k] == ' ' && s[k + 1] == '(',
    decreases end,
{
    if end >= 1 && end < s.len() && !(s[end - 1] == ' ' && s[end] == '(') {
        lemma_last_paren_open(s, end - 1);
    }
}

/// Splits `base (inner)` at its last ` (`: both parts must be non-empty and
/// the text must end with `)`.
pub open spec fn spec_split_parenthesized(s: Seq<char>) -> Option<(Seq<char>, Seq<char>)> {
    match last_paren_open(s, s.len() - 1) {
        Some(k) => if s.len() > 0 && s.last() == ')' && k > 0 && k + 2 < s.len() - 1 {
            Some((s.subrange(0, k), s.subrange(k + 2, s.len() - 1)))
        } else {
            None
        },
        None => None,
    }
}

/// Splits `base (inner)` into its base and the text in parentheses (see
/// [`spec_split_parenthesized`]).
pub fn split_parenthesized(s: &str) -> (r: Option<(String, String)>)
    ensures
        match r {
            Some((a, b)) => spec_split_parenthesized(s@) == Some((a@, b@)),
            None => spec_split_parenthesized(s@) is None,
        },
{
    let cs = str_chars(s);
    let n = cs.len();
    if n < 2 {
        proof {
            lemma_last_paren_open(s@, n - 1);
        }
        return None;
    }
    let mut end: usize = n - 1;
    while end >= 1 && !(cs[end - 1] == ' ' && cs[end] == '(')
        invariant
            1 <= n,
            end < n,
            n == s@.len(),
            cs@ == s@,
            last_paren_open(s@, n - 1) == last_paren_open(s@, end as int),
        decreases end,
    {
        end = end - 1;
    }
    proof {
        lemma_last_paren_open(s@, end as int);
    }
    if end < 1 {
        return None;
    }
    let k = end - 1;
    if cs[n - 1] != ')' || k == 0 || k + 2 >= n - 1 {
        return None;
    }
    let base = string_from_chars(&cs, 0, k);
    let inner = string_from_chars(&cs, k + 2, n - 1);
    Some((base, inner))
}

/// Whether a text ends with ` Seed`.
pub open spec fn ends_with_seed(s: Seq<char>) -> bool {
    s.len() >= 5 && s.subrange(s.len() - 5, s.len() as int) == " Seed"@
}

/// The Chinese name of an item: listed by name, or built from the names of
/// its parts: `X Seed` is `X`'s name followed by 种子, and `X (Y)` is `X`'s
/// name followed by `Y`'s (or `Y` itself) in full-width parentheses.
pub open spec fn spec_item_zh(name: Seq<char>) -> Option<Seq<char>>
    decreases name.len(),
{
    match spec_direct_item_zh(name) {
        Some(v) => Some(v),
        None => if ends_with_seed(name) {
            match spec_item_zh(name.subrange(0, name.len() - 5)) {
                Some(b) => Some(b + "种子"@),
                None => None,
            }
        } else {
            match last_paren_open(name, name.len() - 1) {
                Some(k) => if name.len() > 0 && name.last() == ')' && k > 0 && k + 2 < name.len() - 1 {
                    let base = name.subrange(0, k);
                    let inner = name.subrange(k + 2, name.len() - 1);
                    match spec_item_zh(base) {
                        Some(bz) => Some(
                            bz + "（"@ + match spec_item_zh(inner) {
                                Some(m) => m,
                                None => inner,
                            } + "）"@,
                        ),
                        None => None,
                    }
                } else {
                    None
                },
                None => None,
            }
        },
    }
}

/// The Chinese name of an item (see [`spec_item_zh`]).
pub fn item_zh(name: &str) -> (r: Option<String>)
    ensures
        match r {
            Some(z) => spec_item_zh(name@) == Some(z@),
            None => spec_item_zh(name@) is None,
        },
    decreases name@.len(),
{
    if let Some(v) = direct_item_zh(name) {
        return Some(string_of(v));
    }
    let cs = str_chars(name);
    let n = cs.len();
    proof {
        reveal_strlit(" Seed");
    }
    if n >= 5 && cs[n - 5] == ' ' && cs[n - 4] == 'S' && cs[n - 3] == 'e' && cs[n - 2] == 'e'
        && cs[n - 1] == 'd' {
        proof {
            assert(name@.subrange(n - 5, n as int) =~= " Seed"@);
        }
        let base = string_from_chars(&cs, 0, n - 5);
        return match item_zh(base.as_str()) {
            Some(b) => {
                let mut z = b;
                push_str(&mut z, "种子");
                Some(z)
            },
            None => None,
        };
    }
    proof {
        if ends_with_seed(name@) {
            let t = name@.subrange(n - 5, n as int);
            assert(t[0] == ' ' && t[1] == 'S' && t[2] == 'e' && t[3] == 'e' && t[4] == 'd');
        }
    }
    match split_parenthesized(name) {
        Some((base, inner)) => {
            let bz = match item_zh(base.as_str()) {
                Some(b) => b,
                None => return None,
            };
            let mut z = bz;
            push_str(&mut z, "（");
            match item_zh(inner.as_str()) {
                Some(m) => push_str(&mut z, m.as_str()),
                None => push_str(&mut z, inner.as_str()),
            }
            push_str(&mut z, "）");
            Some(z)
        },
        None => None,
    }
}

// ---------------------------------------------------------------------------
// Counts
// ---------------------------------------------------------------------------

/// Reads a count of the game data that must be at least 1 and fit in a
/// `u32`; the message names the field.
pub fn parse_positive_u32(field: &str, value: i64) -> (r: Result<u32, String>)
    ensures
        1 <= value <= u32::MAX ==> r == Ok::<u32, String>(value as u32),
        value < 1 ==> (r matches Err(m) && m@ == field@ + " must be >= 1, got "@ + signed_decimal(
            value as int,
        )),
        value > u32::MAX ==> (r matches Err(m) && m@ == field@ + " out of range for u32: "@
            + signed_decimal(value as int)),
{
    if value < 1 {
        let mut m = string_of(field);
        push_str(&mut m, " must be >= 1, got ");
        let d = i64_to_decimal(value);
        push_str(&mut m, d.as_str());
        return Err(m);
    }
    if value > 4294967295i64 {
        let mut m = string_of(field);
        push_str(&mut m, " out of range for u32: ");
        let d = i64_to_decimal(value);
        push_str(&mut m, d.as_str());
        return Err(m);
    }
    Ok(value as u32)
}

// ---------------------------------------------------------------------------
// Recipes of the game data
// ---------------------------------------------------------------------------

/// A `{ item, count }` pair as the game data writes it.
#[derive(Debug)]
pub struct LuaStack {
    pub item: String,
    pub count: i64,
}

/// A recipe as the game data writes it.
#[derive(Debug)]
pub struct LuaRecipe {
    pub ingredients: Vec<LuaStack>,
    pub products: Vec<LuaStack>,
    pub facility: String,
    pub time_s: u32,
}

/// The message that refuses a recipe of the game data with an empty list.
pub open spec fn empty_lists_message(idx: nat) -> Seq<char> {
    "recipe["@ + crate::strings::decimal(idx) + "] has empty ingredient/product list"@
}

/// Makes a recipe of the game data from its read parts; refused when its
/// ingredient or product list is empty. `idx` is its 1-based position in
/// its file.
pub fn lua_recipe_from_parts(
    idx: usize,
    facility: String,
    time_s: u32,
    ingredients: Vec<LuaStack>,
    products: Vec<LuaStack>,
) -> (r: Result<LuaRecipe, String>)
    ensures
        match r {
            Ok(rec) => ingredients@.len() > 0 && products@.len() > 0 && rec.facility@ == facility@
                && rec.time_s == time_s && rec.ingredients@ == ingredients@ && rec.products@
                == products@,
            Err(m) => (ingredients@.len() == 0 || products@.len() == 0) && m@ == empty_lists_message(
                idx as nat,
            ),
        },
{
    if ingredients.len() == 0 || products.len() == 0 {
        let mut m = string_of("recipe[");
        crate::strings::push_decimal(&mut m, idx as u64);
        push_str(&mut m, "] has empty ingredient/product list");
        return Err(m);
    }
    Ok(LuaRecipe { ingredients, products, facility, time_s })
}

/// One `{ item, count }` row of `recipes.toml`.
#[derive(Debug)]
pub struct StackRow {
    pub item: String,
    pub count: u32,
}

/// One `[[recipes]]` row of `recipes.toml`.
#[derive(Debug)]
pub struct RecipeRow {
    pub facility: String,
    pub time_s: u32,
    pub ingredients: Vec<StackRow>,
    pub products: Vec<StackRow>,
}

/// One `[[power_recipes]]` row of `recipes.toml`.
#[derive(Debug)]
pub struct PowerRecipeRow {
    pub ingredient: StackRow,
    pub power_w: u32,
    pub time_s: u32,
}

/// One row of `items.toml`.
#[derive(Debug)]
pub struct ItemRow {
    pub key: String,
    pub en: String,
    pub zh: String,
}

/// One `[[machines]]` row of `facilities.toml`.
#[derive(Debug)]
pub struct MachineRow {
    pub key: String,
    pub power_w: u32,
    pub en: String,
    pub zh: String,
}

/// The `[thermal_bank]` row of `facilities.toml`.
#[derive(Debug)]
pub struct ThermalBankRow {
    pub key: String,
    pub en: String,
    pub zh: String,
}

/// The rows of the three catalog files.
#[derive(Debug)]
pub struct ConvertTables {
    pub items: Vec<ItemRow>,
    pub machines: Vec<MachineRow>,
    pub thermal_bank: ThermalBankRow,
    pub recipes: Vec<RecipeRow>,
    pub power_recipes: Vec<PowerRecipeRow>,
}

/// The text of the three generated data files.
#[derive(Debug, Clone)]
pub struct ConvertOutput {
    pub items_toml: String,
    pub facilities_toml: String,
    pub recipes_toml: String,
}

/// Why the game data could not be converted.
#[derive(Debug)]
pub enum ConvertError {
    /// A value of a file is out of range.
    Schema { path: String, message: String },
    /// An item or facility has no Chinese name.
    MissingI18n { kind: &'static str, key: String },
    /// A facility used by a recipe has no power figure.
    MissingFacilityPower { facility: String },
}

/// A recipe of the thermal bank, which becomes a power recipe.
pub open spec fn is_thermal(r: LuaRecipe) -> bool {
    r.facility@ == "Thermal Bank"@
}

/// A count fits a positive `u32`.
pub open spec fn count_ok(c: i64) -> bool {
    1 <= c <= u32::MAX
}

/// A thermal-bank recipe burns one ingredient for one `Power` product, with
/// valid counts.
pub open spec fn thermal_ok(r: LuaRecipe) -> bool {
    &&& r.ingredients@.len() == 1
    &&& r.products@.len() == 1
    &&& r.products@[0].item@ == "Power"@
    &&& count_ok(r.ingredients@[0].count)
    &&& count_ok(r.products@[0].count)
}

/// A recipe can be converted: a thermal-bank recipe as above, any other
/// with valid counts in both lists.
pub open spec fn lua_recipe_ok(r: LuaRecipe) -> bool {
    if is_thermal(r) {
        thermal_ok(r)
    } else {
        &&& forall|k: int| 0 <= k < r.ingredients@.len() ==> count_ok((#[trigger] r.ingredients@[k]).count)
        &&& forall|k: int| 0 <= k < r.products@.len() ==> count_ok((#[trigger] r.products@[k]).count)
    }
}

/// The message that refuses a thermal-bank recipe.
pub open spec fn thermal_message(r: LuaRecipe) -> Seq<char> {
    if r.ingredients@.len() != 1 {
        "thermal bank recipe must have exactly one ingredient"@
    } else if r.products@.len() != 1 {
        "thermal bank recipe must have exactly one product"@
    } else if r.products@[0].item@ != "Power"@ {
        "thermal bank recipe product must be `Power`, got `"@ + r.products@[0].item@ + "`"@
    } else if !count_ok(r.ingredients@[0].count) {
        if r.ingredients@[0].count < 1 {
            "thermal ingredient count for `"@ + r.ingredients@[0].item@ + "`"@ + " must be >= 1, got "@
                + signed_decimal(r.ingredients@[0].count as int)
        } else {
            "thermal ingredient count for `"@ + r.ingredients@[0].item@ + "`"@
                + " out of range for u32: "@ + signed_decimal(r.ingredients@[0].count as int)
        }
    } else if r.products@[0].count < 1 {
        "thermal Power.count"@ + " must be >= 1, got "@ + signed_decimal(r.products@[0].count as int)
    } else {
        "thermal Power.count"@ + " out of range for u32: "@ + signed_decimal(r.products@[0].count as int)
    }
}

/// The view of a row `{ item, count }`.
pub open spec fn stack_row_view(s: StackRow) -> (Seq<char>, u32) {
    (s.item@, s.count)
}

/// Turns a thermal-bank recipe into its power recipe's ingredient and power
/// per bank; refused, with the message [`thermal_message`], when it is not
/// one ingredient burnt into one `Power` product with valid counts.
pub fn thermal_to_power(recipe: &LuaRecipe) -> (r: Result<(StackRow, u32), String>)
    ensures
        match r {
            Ok((stack, power_w)) => thermal_ok(*recipe) && stack.item@ == recipe.ingredients@[0].item@
                && stack.count == recipe.ingredients@[0].count && power_w == recipe.products@[0].count,
            Err(m) => !thermal_ok(*recipe) && m@ == thermal_message(*recipe),
        },
{
    proof {
        reveal_strlit("Power");
    }
    if recipe.ingredients.len() != 1 {
        return Err(string_of("thermal bank recipe must have exactly one ingredient"));
    }
    if recipe.products.len() != 1 {
        return Err(string_of("thermal bank recipe must have exactly one product"));
    }
    let power_product = &recipe.products[0];
    if !str_eq(power_product.item.as_str(), "Power") {
        let mut m = string_of("thermal bank recipe product must be `Power`, got `");
        push_str(&mut m, power_product.item.as_str());
        push_str(&mut m, "`");
        return Err(m);
    }
    let ingredient = &recipe.ingredients[0];
    let mut field = string_of("thermal ingredient count for `");
    push_str(&mut field, ingredient.item.as_str());
    push_str(&mut field, "`");
    let count = match parse_positive_u32(field.as_str(), ingredient.count) {
        Ok(c) => c,
        Err(m) => {
            proof {
                if ingredient.count < 1 {
                    assert(m@ =~= thermal_message(*recipe));
                } else {
                    assert(m@ =~= thermal_message(*recipe));
                }
            }
            return Err(m);
        },
    };
    let power_w = match parse_positive_u32("thermal Power.count", power_product.count) {
        Ok(p) => p,
        Err(m) => {
            proof {
                assert(m@ =~= thermal_message(*recipe));
            }
            return Err(m);
        },
    };
    Ok((StackRow { item: string_of(ingredient.item.as_str()), count }, power_w))
}

// ---------------------------------------------------------------------------
// Row order
// ---------------------------------------------------------------------------

/// The view of a recipe row: facility, time, ingredients, products.
pub open spec fn recipe_row_view(r: RecipeRow) -> (Seq<char>, u32, Seq<(Seq<char>, u32)>, Seq<(Seq<char>, u32)>) {
    (r.facility@, r.time_s, r.ingredients@.map_values(|s: StackRow| stack_row_view(s)), r.products@.map_values(|s: StackRow| stack_row_view(s)))
}

/// Recipe rows are ordered by facility, then time, then the lengths of the
/// ingredient and product lists.
pub open spec fn recipe_row_lt(
    a: (Seq<char>, u32, Seq<(Seq<char>, u32)>, Seq<(Seq<char>, u32)>),
    b: (Seq<char>, u32, Seq<(Seq<char>, u32)>, Seq<(Seq<char>, u32)>),
) -> bool {
    chars_lt(a.0, b.0) || (a.0 == b.0 && (a.1 < b.1 || (a.1 == b.1 && (a.2.len() < b.2.len() || (
    a.2.len() == b.2.len() && a.3.len() < b.3.len())))))
}

impl SortOrder for RecipeRow {
    open spec fn sorts_before(&self, other: &Self) -> bool {
        recipe_row_lt(recipe_row_view(*self), recipe_row_view(*other))
    }

    fn before(&self, other: &Self) -> (b: bool) {
        if str_lt(self.facility.as_str(), other.facility.as_str()) {
            return true;
        }
        if !str_eq(self.facility.as_str(), other.facility.as_str()) {
            return false;
        }
        if self.time_s != other.time_s {
            return self.time_s < other.time_s;
        }
        if self.ingredients.len() != other.ingredients.len() {
            return self.ingredients.len() < other.ingredients.len();
        }
        self.products.len() < other.products.len()
    }
}

/// The view of a power recipe row: ingredient, power, time.
pub open spec fn power_row_view(r: PowerRecipeRow) -> ((Seq<char>, u32), u32, u32) {
    (stack_row_view(r.ingredient), r.power_w, r.time_s)
}

/// Power recipe rows are ordered by ingredient item, then time, then power.
pub open spec fn power_row_lt(a: ((Seq<char>, u32), u32, u32), b: ((Seq<char>, u32), u32, u32)) -> bool {
    chars_lt(a.0.0, b.0.0) || (a.0.0 == b.0.0 && (a.2 < b.2 || (a.2 == b.2 && a.1 < b.1)))
}

impl SortOrder for PowerRecipeRow {
    open spec fn sorts_before(&self, other: &Self) -> bool {
        power_row_lt(power_row_view(*self), power_row_view(*other))
    }

    fn before(&self, other: &Self) -> (b: bool) {
        if str_lt(self.ingredient.item.as_str(), other.ingredient.item.as_str()) {
            return true;
        }
        if !str_eq(self.ingredient.item.as_str(), other.ingredient.item.as_str()) {
            return false;
        }
        if self.time_s != other.time_s {
            return self.time_s < other.time_s;
        }
        self.power_w < other.power_w
    }
}

// ---------------------------------------------------------------------------
// Name sets
// ---------------------------------------------------------------------------

/// The views of a list of strings.
pub open spec fn names_view(v: Seq<String>) -> Seq<Seq<char>> {
    v.map_values(|s: String| s@)
}

/// Names in strictly ascending order.
pub open spec fn names_ascending(s: Seq<Seq<char>>) -> bool {
    forall|i: int, j: int| 0 <= i < j < s.len() ==> chars_lt(#[trigger] s[i], #[trigger] s[j])
}

fn insert_name(names: &mut Vec<String>, name: &str)
    requires
        names_ascending(names_view(old(names)@)),
    ensures
        names_ascending(names_view(final(names)@)),
        forall|x: Seq<char>| #[trigger] names_view(final(names)@).contains(x) <==> (x == name@ || names_view(old(names)@).contains(x)),
{
    let ghost before = names_view(names@);
    let mut i: usize = 0;
    while i < names.len() && str_lt(names[i].as_str(), name)
        invariant
            i <= names@.len(),
            names@ == old(names)@,
            before == names_view(names@),
            forall|k: int| 0 <= k < i ==> chars_lt(#[trigger] before[k], name@),
        decreases names@.len() - i,
    {
        i = i + 1;
    }
    if i < names.len() && str_eq(names[i].as_str(), name) {
        proof {
            assert(before[i as int] == name@);
        }
        return;
    }
    proof {
        if i < names.len() {
            lemma_chars_lt_total(before[i as int], name@);
        }
    }
    names.insert(i, string_of(name));
    proof {
        let after = names_view(names@);
        assert(after =~= before.insert(i as int, name@));
        assert forall|a: int, b: int| 0 <= a < b < after.len() implies chars_lt(#[trigger] after[a], #[trigger] after[b]) by {
            if b < i {
            } else if b == i {
                assert(after[a] == before[a]);
            } else if a == i {
                assert(after[b] == before[b - 1]);
                if b - 1 > i {
                    lemma_chars_lt_transitive(name@, before[i as int], before[b - 1]);
                }
            } else if a < i {
                assert(after[a] == before[a] && after[b] == before[b - 1]);
            } else {
                assert(after[a] == before[a - 1] && after[b] == before[b - 1]);
            }
        }
        assert forall|x: Seq<char>| #[trigger] after.contains(x) <==> (x == name@ || before.contains(x)) by {
            if before.contains(x) {
                let k = choose|k: int| 0 <= k < before.len() && before[k] == x;
                if k < i {
                    assert(after[k] == x);
                } else {
                    assert(after[k + 1] == x);
                }
            }
            if after.contains(x) {
                let k = choose|k: int| 0 <= k < after.len() && after[k] == x;
                if k < i {
                    assert(before[k] == x);
                } else if k > i {
                    assert(before[k - 1] == x);
                }
            }
            assert(after[i as int] == name@);
        }
    }
}

// ---------------------------------------------------------------------------
// Converting the recipes
// ---------------------------------------------------------------------------

/// The row `{ item, count }` a stack of the game data becomes.
pub open spec fn lua_stack_view(s: LuaStack) -> (Seq<char>, u32) {
    (s.item@, s.count as u32)
}

/// The recipe rows, in the order of the game data, before sorting.
pub open spec fn recipe_rows_of(recipes: Seq<LuaRecipe>) -> Seq<(Seq<char>, u32, Seq<(Seq<char>, u32)>, Seq<(Seq<char>, u32)>)>
    decreases recipes.len(),
{
    if recipes.len() == 0 {
        Seq::empty()
    } else {
        let p = recipe_rows_of(recipes.drop_last());
        let r = recipes.last();
        if is_thermal(r) {
            p
        } else {
            p.push(
                (
                    r.facility@,
                    r.time_s,
                    r.ingredients@.map_values(|s: LuaStack| lua_stack_view(s)),
                    r.products@.map_values(|s: LuaStack| lua_stack_view(s)),
                ),
            )
        }
    }
}

/// The power recipe rows, in the order of the game data, before sorting.
pub open spec fn power_rows_of(recipes: Seq<LuaRecipe>) -> Seq<((Seq<char>, u32), u32, u32)>
    decreases recipes.len(),
{
    if recipes.len() == 0 {
        Seq::empty()
    } else {
        let p = power_rows_of(recipes.drop_last());
        let r = recipes.last();
        if is_thermal(r) {
            p.push((lua_stack_view(r.ingredients@[0]), r.products@[0].count as u32, r.time_s))
        } else {
            p
        }
    }
}

/// The power recipe row a thermal-bank recipe gives, as [`power_rows_of`]
/// lists it.
spec fn thermal_row(r: LuaRecipe) -> ((Seq<char>, u32), u32, u32) {
    (lua_stack_view(r.ingredients@[0]), r.products@[0].count as u32, r.time_s)
}

/// Each power recipe row before sorting comes from a thermal-bank recipe.
proof fn lemma_power_row_source(recipes: Seq<LuaRecipe>, k: int)
    requires
        0 <= k < power_rows_of(recipes).len(),
    ensures
        exists|i: int|
            0 <= i < recipes.len() && is_thermal(#[trigger] recipes[i]) && power_rows_of(recipes)[k] == thermal_row(
                recipes[i],
            ),
    decreases recipes.len(),
{
    let t = recipes.drop_last();
    let r = recipes.last();
    let p = power_rows_of(t);
    let q = power_rows_of(recipes);
    assert(is_thermal(r) ==> q == p.push(thermal_row(r)));
    assert(!is_thermal(r) ==> q == p);
    if k < p.len() {
        lemma_power_row_source(t, k);
        assert(q[k] == p[k]);
        let i = choose|i: int| 0 <= i < t.len() && is_thermal(#[trigger] t[i]) && p[k] == thermal_row(t[i]);
        assert(recipes[i] == t[i]);
    } else {
        assert(recipes[recipes.len() - 1] == r);
    }
}

/// Each thermal-bank recipe gives a power recipe row before sorting.
proof fn lemma_power_rows_of(recipes: Seq<LuaRecipe>)
    ensures
        forall|i: int|
            0 <= i < recipes.len() && is_thermal(#[trigger] recipes[i]) ==> power_rows_of(recipes).contains(
                thermal_row(recipes[i]),
            ),
    decreases recipes.len(),
{
    if recipes.len() > 0 {
        let t = recipes.drop_last();
        let r = recipes.last();
        lemma_power_rows_of(t);
        let p = power_rows_of(t);
        let q = power_rows_of(recipes);
        assert(is_thermal(r) ==> q == p.push(thermal_row(r)));
        assert(!is_thermal(r) ==> q == p);
        assert forall|i: int|
            0 <= i < recipes.len() && is_thermal(#[trigger] recipes[i]) implies q.contains(thermal_row(recipes[i])) by {
            if i < t.len() {
                assert(recipes[i] == t[i]);
                let x = thermal_row(t[i]);
                assert(p.contains(x));
                let k = choose|k: int| 0 <= k < p.len() && p[k] == x;
                assert(q[k] == x);
            } else {
                assert(recipes[i] == r);
                assert(q[q.len() - 1] == thermal_row(r));
            }
        }
    }
}

/// `row` is the power recipe of the thermal-bank recipe `r`: it burns the
/// recipe's one ingredient in its count, gives the recipe's `Power` count as
/// the power per bank and the recipe's time as the burn time.
pub open spec fn power_row_of_thermal_recipe(row: PowerRecipeRow, r: LuaRecipe) -> bool {
    &&& r.facility@ == "Thermal Bank"@
    &&& row.ingredient.item@ == r.ingredients@[0].item@
    &&& row.ingredient.count == r.ingredients@[0].count
    &&& row.power_w == r.products@[0].count
    &&& row.time_s == r.time_s
}

/// Some thermal-bank recipe of `recipes` has `row` as its power recipe.
pub open spec fn power_row_from_recipes(row: PowerRecipeRow, recipes: Seq<LuaRecipe>) -> bool {
    exists|i: int| 0 <= i < recipes.len() && power_row_of_thermal_recipe(row, #[trigger] recipes[i])
}

/// The power recipes of a conversion are the thermal-bank recipes of the
/// game data: each row burns such a recipe's one ingredient, in its count,
/// gives its `Power` count as the power per bank and its time as the burn
/// time; and every thermal-bank recipe has such a row.
pub proof fn law_power_recipes_from_thermal_bank(t: ConvertTables, recipes: Seq<LuaRecipe>, fp: Seq<(String, i64)>)
    requires
        convert_valid(recipes, fp),
        tables_match(t, recipes, fp),
    ensures
        forall|k: int| 0 <= k < t.power_recipes@.len() ==> power_row_from_recipes(#[trigger] t.power_recipes@[k], recipes),
        forall|i: int|
            0 <= i < recipes.len() && (#[trigger] recipes[i]).facility@ == "Thermal Bank"@ ==> exists|k: int|
                0 <= k < t.power_recipes@.len() && power_row_of_thermal_recipe(t.power_recipes@[k], recipes[i]),
{
    let lt = |a: ((Seq<char>, u32), u32, u32), b: ((Seq<char>, u32), u32, u32)| power_row_lt(a, b);
    let rows = power_rows_of(recipes);
    let sorted = sort_stable_by(rows, lt);
    let views = t.power_recipes@.map_values(|r: PowerRecipeRow| power_row_view(r));
    assert(views == sorted);
    lemma_power_rows_of(recipes);
    lemma_sort_stable_by_contains(rows, lt);
    assert forall|k: int| 0 <= k < t.power_recipes@.len() implies power_row_from_recipes(
        #[trigger] t.power_recipes@[k],
        recipes,
    ) by {
        assert(views[k] == power_row_view(t.power_recipes@[k]));
        assert(sorted.contains(views[k]));
        assert(rows.contains(views[k]));
        let j = choose|j: int| 0 <= j < rows.len() && rows[j] == views[k];
        lemma_power_row_source(recipes, j);
        let i = choose|i: int| 0 <= i < recipes.len() && is_thermal(#[trigger] recipes[i]) && rows[j] == thermal_row(recipes[i]);
        assert(lua_recipe_ok(recipes[i]));
        assert(power_row_of_thermal_recipe(t.power_recipes@[k], recipes[i]));
    }
    assert forall|i: int| 0 <= i < recipes.len() && (#[trigger] recipes[i]).facility@ == "Thermal Bank"@ implies exists|k: int|
        0 <= k < t.power_recipes@.len() && power_row_of_thermal_recipe(t.power_recipes@[k], recipes[i]) by {
        assert(is_thermal(recipes[i]));
        assert(lua_recipe_ok(recipes[i]));
        let x = thermal_row(recipes[i]);
        assert(rows.contains(x));
        assert(sorted.contains(x));
        let k = choose|k: int| 0 <= k < sorted.len() && sorted[k] == x;
        assert(views[k] == power_row_view(t.power_recipes@[k]));
        assert(power_row_of_thermal_recipe(t.power_recipes@[k], recipes[i]));
    }
}

/// The recipe row a recipe other than the thermal bank's gives, as
/// [`recipe_rows_of`] lists it.
spec fn machine_row(r: LuaRecipe) -> (Seq<char>, u32, Seq<(Seq<char>, u32)>, Seq<(Seq<char>, u32)>) {
    (
        r.facility@,
        r.time_s,
        r.ingredients@.map_values(|s: LuaStack| lua_stack_view(s)),
        r.products@.map_values(|s: LuaStack| lua_stack_view(s)),
    )
}

/// Each recipe row before sorting comes from a recipe of a machine.
proof fn lemma_recipe_row_source(recipes: Seq<LuaRecipe>, k: int)
    requires
        0 <= k < recipe_rows_of(recipes).len(),
    ensures
        exists|i: int|
            0 <= i < recipes.len() && !is_thermal(#[trigger] recipes[i]) && recipe_rows_of(recipes)[k] == machine_row(
                recipes[i],
            ),
    decreases recipes.len(),
{
    let t = recipes.drop_last();
    let r = recipes.last();
    let p = recipe_rows_of(t);
    let q = recipe_rows_of(recipes);
    assert(!is_thermal(r) ==> q == p.push(machine_row(r)));
    assert(is_thermal(r) ==> q == p);
    if k < p.len() {
        lemma_recipe_row_source(t, k);
        assert(q[k] == p[k]);
        let i = choose|i: int| 0 <= i < t.len() && !is_thermal(#[trigger] t[i]) && p[k] == machine_row(t[i]);
        assert(recipes[i] == t[i]);
    } else {
        assert(recipes[recipes.len() - 1] == r);
    }
}

/// Each recipe of a machine gives a recipe row before sorting.
proof fn lemma_recipe_rows_of(recipes: Seq<LuaRecipe>)
    ensures
        forall|i: int|
            0 <= i < recipes.len() && !is_thermal(#[trigger] recipes[i]) ==> recipe_rows_of(recipes).contains(
                machine_row(recipes[i]),
            ),
    decreases recipes.len(),
{
    if recipes.len() > 0 {
        let t = recipes.drop_last();
        let r = recipes.last();
        lemma_recipe_rows_of(t);
        let p = recipe_rows_of(t);
        let q = recipe_rows_of(recipes);
        assert(!is_thermal(r) ==> q == p.push(machine_row(r)));
        assert(is_thermal(r) ==> q == p);
        assert forall|i: int|
            0 <= i < recipes.len() && !is_thermal(#[trigger] recipes[i]) implies q.contains(machine_row(recipes[i])) by {
            if i < t.len() {
                assert(recipes[i] == t[i]);
                let x = machine_row(t[i]);
                assert(p.contains(x));
                let k = choose|k: int| 0 <= k < p.len() && p[k] == x;
                assert(q[k] == x);
            } else {
                assert(recipes[i] == r);
                assert(q[q.len() - 1] == machine_row(r));
            }
        }
    }
}

/// `rows` lists the stacks `stacks`, one for one in order, with the same
/// items and counts.
pub open spec fn stack_rows_are(rows: Seq<StackRow>, stacks: Seq<LuaStack>) -> bool {
    &&& rows.len() == stacks.len()
    &&& forall|j: int|
        0 <= j < rows.len() ==> (#[trigger] rows[j]).item@ == stacks[j].item@ && rows[j].count == stacks[j].count
}

/// `row` is the recipe row of the recipe `r` of a machine: same facility,
/// time, and ingredients and products in their order and counts.
pub open spec fn recipe_row_of_machine_recipe(row: RecipeRow, r: LuaRecipe) -> bool {
    &&& r.facility@ != "Thermal Bank"@
    &&& row.facility@ == r.facility@
    &&& row.time_s == r.time_s
    &&& stack_rows_are(row.ingredients@, r.ingredients@)
    &&& stack_rows_are(row.products@, r.products@)
}

/// Some recipe of a machine in `recipes` has `row` as its recipe row.
pub open spec fn recipe_row_from_recipes(row: RecipeRow, recipes: Seq<LuaRecipe>) -> bool {
    exists|i: int| 0 <= i < recipes.len() && recipe_row_of_machine_recipe(row, #[trigger] recipes[i])
}

proof fn lemma_stack_rows_are(rows: Seq<StackRow>, stacks: Seq<LuaStack>)
    requires
        rows.map_values(|s: StackRow| stack_row_view(s)) == stacks.map_values(|s: LuaStack| lua_stack_view(s)),
        forall|k: int| 0 <= k < stacks.len() ==> count_ok((#[trigger] stacks[k]).count),
    ensures
        stack_rows_are(rows, stacks),
{
    assert(rows.len() == rows.map_values(|s: StackRow| stack_row_view(s)).len());
    assert forall|j: int| 0 <= j < rows.len() implies (#[trigger] rows[j]).item@ == stacks[j].item@ && rows[j].count
        == stacks[j].count by {
        assert(rows.map_values(|s: StackRow| stack_row_view(s))[j] == stack_row_view(rows[j]));
        assert(stacks.map_values(|s: LuaStack| lua_stack_view(s))[j] == lua_stack_view(stacks[j]));
        assert(count_ok(stacks[j].count));
    }
}

/// The recipe rows of a conversion are the recipes of the game data other
/// than the thermal bank's: each row has such a recipe's facility, time, and
/// ingredients and products in their order and counts; and every such
/// recipe has a row.
pub proof fn law_recipe_rows_from_machine_recipes(t: ConvertTables, recipes: Seq<LuaRecipe>, fp: Seq<(String, i64)>)
    requires
        convert_valid(recipes, fp),
        tables_match(t, recipes, fp),
    ensures
        forall|k: int| 0 <= k < t.recipes@.len() ==> recipe_row_from_recipes(#[trigger] t.recipes@[k], recipes),
        forall|i: int|
            0 <= i < recipes.len() && (#[trigger] recipes[i]).facility@ != "Thermal Bank"@ ==> exists|k: int|
                0 <= k < t.recipes@.len() && recipe_row_of_machine_recipe(t.recipes@[k], recipes[i]),
{
    let lt = |a: (Seq<char>, u32, Seq<(Seq<char>, u32)>, Seq<(Seq<char>, u32)>), b: (Seq<char>, u32, Seq<(Seq<char>, u32)>, Seq<(Seq<char>, u32)>)| recipe_row_lt(a, b);
    let rows = recipe_rows_of(recipes);
    let sorted = sort_stable_by(rows, lt);
    let views = t.recipes@.map_values(|r: RecipeRow| recipe_row_view(r));
    assert(views == sorted);
    lemma_recipe_rows_of(recipes);
    lemma_sort_stable_by_contains(rows, lt);
    assert forall|k: int| 0 <= k < t.recipes@.len() implies recipe_row_from_recipes(#[trigger] t.recipes@[k], recipes) by {
        assert(views[k] == recipe_row_view(t.recipes@[k]));
        assert(sorted.contains(views[k]));
        assert(rows.contains(views[k]));
        let j = choose|j: int| 0 <= j < rows.len() && rows[j] == views[k];
        lemma_recipe_row_source(recipes, j);
        let i = choose|i: int| 0 <= i < recipes.len() && !is_thermal(#[trigger] recipes[i]) && rows[j] == machine_row(recipes[i]);
        assert(lua_recipe_ok(recipes[i]));
        lemma_stack_rows_are(t.recipes@[k].ingredients@, recipes[i].ingredients@);
        lemma_stack_rows_are(t.recipes@[k].products@, recipes[i].products@);
        assert(recipe_row_of_machine_recipe(t.recipes@[k], recipes[i]));
    }
    assert forall|i: int| 0 <= i < recipes.len() && (#[trigger] recipes[i]).facility@ != "Thermal Bank"@ implies exists|k: int|
        0 <= k < t.recipes@.len() && recipe_row_of_machine_recipe(t.recipes@[k], recipes[i]) by {
        assert(!is_thermal(recipes[i]));
        assert(lua_recipe_ok(recipes[i]));
        let x = machine_row(recipes[i]);
        assert(rows.contains(x));
        assert(sorted.contains(x));
        let k = choose|k: int| 0 <= k < sorted.len() && sorted[k] == x;
        assert(views[k] == recipe_row_view(t.recipes@[k]));
        lemma_stack_rows_are(t.recipes@[k].ingredients@, recipes[i].ingredients@);
        lemma_stack_rows_are(t.recipes@[k].products@, recipes[i].products@);
        assert(recipe_row_of_machine_recipe(t.recipes@[k], recipes[i]));
    }
}

/// The item names of a list of stacks.
pub open spec fn stack_items(stacks: Seq<LuaStack>) -> Seq<Seq<char>> {
    stacks.map_values(|s: LuaStack| s.item@)
}

/// Every item the recipes use, with repeats: the fuel of thermal-bank
/// recipes, and both lists of the others.
pub open spec fn item_names_of(recipes: Seq<LuaRecipe>) -> Seq<Seq<char>>
    decreases recipes.len(),
{
    if recipes.len() == 0 {
        Seq::empty()
    } else {
        let p = item_names_of(recipes.drop_last());
        let r = recipes.last();
        if is_thermal(r) {
            p.push(r.ingredients@[0].item@)
        } else {
            p + stack_items(r.ingredients@) + stack_items(r.products@)
        }
    }
}

/// Every facility the recipes other than the thermal bank's use, with
/// repeats.
pub open spec fn machine_names_of(recipes: Seq<LuaRecipe>) -> Seq<Seq<char>>
    decreases recipes.len(),
{
    if recipes.len() == 0 {
        Seq::empty()
    } else {
        let p = machine_names_of(recipes.drop_last());
        let r = recipes.last();
        if is_thermal(r) {
            p
        } else {
            p.push(r.facility@)
        }
    }
}

/// The power of a facility in `facility_power.toml`: its first entry.
pub open spec fn power_entry(fp: Seq<(String, i64)>, f: Seq<char>) -> Option<i64>
    decreases fp.len(),
{
    if fp.len() == 0 {
        None
    } else if fp[0].0@ == f {
        Some(fp[0].1)
    } else {
        power_entry(fp.drop_first(), f)
    }
}

/// The game data converts: every recipe converts, every item used has a
/// Chinese name, and every facility used has a valid power figure and a
/// Chinese name.
pub open spec fn convert_valid(recipes: Seq<LuaRecipe>, fp: Seq<(String, i64)>) -> bool {
    &&& forall|i: int| 0 <= i < recipes.len() ==> lua_recipe_ok(#[trigger] recipes[i])
    &&& forall|x: Seq<char>| #[trigger] item_names_of(recipes).contains(x) ==> spec_item_zh(x) is Some
    &&& forall|f: Seq<char>| #[trigger] machine_names_of(recipes).contains(f) ==> (power_entry(fp, f) matches Some(p) && count_ok(p))
        && spec_facility_zh(f) is Some
}

/// The converted tables are the ones the game data describes: items and
/// machines once each in ascending key order with their names and powers,
/// the thermal bank, and the recipe and power recipe rows sorted stably
/// (recipes by facility, time and list lengths; power recipes by fuel, time
/// and power).
pub open spec fn tables_match(t: ConvertTables, recipes: Seq<LuaRecipe>, fp: Seq<(String, i64)>) -> bool {
    let item_keys = t.items@.map_values(|r: ItemRow| r.key@);
    let machine_keys = t.machines@.map_values(|r: MachineRow| r.key@);
    &&& names_ascending(item_keys)
    &&& forall|x: Seq<char>| #[trigger] item_keys.contains(x) <==> item_names_of(recipes).contains(x)
    &&& forall|k: int| 0 <= k < t.items@.len() ==> (#[trigger] t.items@[k]).en@ == t.items@[k].key@
        && spec_item_zh(t.items@[k].key@) == Some(t.items@[k].zh@)
    &&& names_ascending(machine_keys)
    &&& forall|x: Seq<char>| #[trigger] machine_keys.contains(x) <==> machine_names_of(recipes).contains(x)
    &&& forall|k: int| 0 <= k < t.machines@.len() ==> (#[trigger] t.machines@[k]).en@ == t.machines@[k].key@
        && spec_facility_zh(t.machines@[k].key@) == Some(t.machines@[k].zh@)
        && power_entry(fp, t.machines@[k].key@) == Some(t.machines@[k].power_w as i64)
    &&& t.thermal_bank.key@ == "Thermal Bank"@
    &&& t.thermal_bank.en@ == "Thermal Bank"@
    &&& t.thermal_bank.zh@ == "热容池"@
    &&& t.recipes@.map_values(|r: RecipeRow| recipe_row_view(r)) == sort_stable_by(
        recipe_rows_of(recipes),
        |a: (Seq<char>, u32, Seq<(Seq<char>, u32)>, Seq<(Seq<char>, u32)>), b: (Seq<char>, u32, Seq<(Seq<char>, u32)>, Seq<(Seq<char>, u32)>)| recipe_row_lt(a, b),
    )
    &&& t.power_recipes@.map_values(|r: PowerRecipeRow| power_row_view(r)) == sort_stable_by(
        power_rows_of(recipes),
        |a: ((Seq<char>, u32), u32, u32), b: ((Seq<char>, u32), u32, u32)| power_row_lt(a, b),
    )
}

/// The message that refuses a count read from `field`.
pub open spec fn count_message(field: Seq<char>, value: i64) -> Seq<char> {
    if value < 1 {
        field + " must be >= 1, got "@ + signed_decimal(value as int)
    } else {
        field + " out of range for u32: "@ + signed_decimal(value as int)
    }
}

/// The field of a stack's count: the item, in an ingredient or product list.
pub open spec fn stack_field(products: bool, item: Seq<char>) -> Seq<char> {
    (if products {
        "recipe product count for item `"@
    } else {
        "recipe ingredient count for item `"@
    }) + item + "`"@
}

/// The checks of the counts of a stack list, by position.
pub open spec fn stack_count_check(stacks: Seq<LuaStack>, products: bool) -> spec_fn(int) -> Option<Seq<char>> {
    |k: int|
        if count_ok(stacks[k].count) {
            None
        } else {
            Some(count_message(stack_field(products, stacks[k].item@), stacks[k].count))
        }
}

/// The message of the first stack, in order, whose count is refused.
pub open spec fn stacks_count_problem(stacks: Seq<LuaStack>, products: bool) -> Option<Seq<char>> {
    first_problem(stacks.len(), stack_count_check(stacks, products))
}

/// What a recipe of the game data is refused for: a thermal-bank recipe
/// for [`thermal_message`], any other for its first ingredient, else its
/// first product, with a refused count.
pub open spec fn recipe_convert_problem(r: LuaRecipe) -> Option<Seq<char>> {
    if is_thermal(r) {
        if thermal_ok(r) {
            None
        } else {
            Some(thermal_message(r))
        }
    } else if stacks_count_problem(r.ingredients@, false) is Some {
        stacks_count_problem(r.ingredients@, false)
    } else {
        stacks_count_problem(r.products@, true)
    }
}

/// The checks of the recipes, by position.
pub open spec fn recipe_convert_check(recipes: Seq<LuaRecipe>) -> spec_fn(int) -> Option<Seq<char>> {
    |i: int| recipe_convert_problem(recipes[i])
}

/// The message of the first refused recipe, in order.
pub open spec fn recipes_convert_problem(recipes: Seq<LuaRecipe>) -> Option<Seq<char>> {
    first_problem(recipes.len(), recipe_convert_check(recipes))
}

/// What a conversion error says, as plain values.
pub enum ConvertErrorView {
    Schema { path: Seq<char>, message: Seq<char> },
    MissingI18n { kind: Seq<char>, key: Seq<char> },
    MissingFacilityPower { facility: Seq<char> },
}

/// The view of a conversion error.
pub open spec fn convert_error_view(e: ConvertError) -> ConvertErrorView {
    match e {
        ConvertError::Schema { path, message } => ConvertErrorView::Schema { path: path@, message: message@ },
        ConvertError::MissingI18n { kind, key } => ConvertErrorView::MissingI18n { kind: kind@, key: key@ },
        ConvertError::MissingFacilityPower { facility } => ConvertErrorView::MissingFacilityPower {
            facility: facility@,
        },
    }
}

/// `key` is the least item name, in key order, that has no Chinese name.
pub open spec fn least_untranslated_item(recipes: Seq<LuaRecipe>, key: Seq<char>) -> bool {
    &&& item_names_of(recipes).contains(key)
    &&& spec_item_zh(key) is None
    &&& forall|x: Seq<char>|
        #[trigger] item_names_of(recipes).contains(x) && spec_item_zh(x) is None ==> x == key || chars_lt(key, x)
}

/// What a facility is refused for: no power figure, a refused power
/// figure, or no Chinese name, in that order.
pub open spec fn machine_convert_problem(fp: Seq<(String, i64)>, fp_path: Seq<char>, f: Seq<char>) -> Option<
    ConvertErrorView,
> {
    match power_entry(fp, f) {
        None => Some(ConvertErrorView::MissingFacilityPower { facility: f }),
        Some(p) => if !count_ok(p) {
            Some(
                ConvertErrorView::Schema {
                    path: fp_path,
                    message: count_message("facility_power `"@ + f + "`"@, p),
                },
            )
        } else if spec_facility_zh(f) is None {
            Some(ConvertErrorView::MissingI18n { kind: "facility"@, key: f })
        } else {
            None
        },
    }
}

/// `f` is the least facility name, in key order, that is refused.
pub open spec fn least_refused_machine(
    recipes: Seq<LuaRecipe>,
    fp: Seq<(String, i64)>,
    fp_path: Seq<char>,
    f: Seq<char>,
) -> bool {
    &&& machine_names_of(recipes).contains(f)
    &&& machine_convert_problem(fp, fp_path, f) is Some
    &&& forall|x: Seq<char>|
        #[trigger] machine_names_of(recipes).contains(x) && machine_convert_problem(fp, fp_path, x) is Some ==> x
            == f || chars_lt(f, x)
}

/// The error a refused conversion reports: the first refused recipe, in
/// order; else the least item name without a Chinese name; else the least
/// refused facility name, with what it is refused for.
pub open spec fn convert_error_is(
    e: ConvertError,
    recipes: Seq<LuaRecipe>,
    fp: Seq<(String, i64)>,
    recipe_dir: Seq<char>,
    fp_path: Seq<char>,
) -> bool {
    match recipes_convert_problem(recipes) {
        Some(m) => convert_error_view(e) == ConvertErrorView::Schema { path: recipe_dir, message: m },
        None => if exists|x: Seq<char>| #[trigger] item_names_of(recipes).contains(x) && spec_item_zh(x) is None {
            e matches ConvertError::MissingI18n { kind, key } && kind@ == "item"@ && least_untranslated_item(
                recipes,
                key@,
            )
        } else {
            exists|f: Seq<char>|
                #[trigger] least_refused_machine(recipes, fp, fp_path, f) && machine_convert_problem(fp, fp_path, f)
                    == Some(convert_error_view(e))
        },
    }
}

fn convert_stacks(
    stacks: &Vec<LuaStack>,
    products: bool,
    names: &mut Vec<String>,
    recipe_dir: &str,
) -> (r: Result<Vec<StackRow>, ConvertError>)
    requires
        names_ascending(names_view(old(names)@)),
    ensures
        names_ascending(names_view(final(names)@)),
        match r {
            Ok(rows) => {
                &&& forall|k: int| 0 <= k < stacks@.len() ==> count_ok((#[trigger] stacks@[k]).count)
                &&& rows@.map_values(|s: StackRow| stack_row_view(s)) == stacks@.map_values(|s: LuaStack| lua_stack_view(s))
                &&& forall|x: Seq<char>| #[trigger] names_view(final(names)@).contains(x) <==> (names_view(old(names)@).contains(x)
                    || stack_items(stacks@).contains(x))
            },
            Err(e) => e matches ConvertError::Schema { path, .. } && path@ == recipe_dir@ && exists|k: int|
                0 <= k < stacks@.len() && !count_ok((#[trigger] stacks@[k]).count),
        },
        match r {
            Ok(_) => stacks_count_problem(stacks@, products) is None,
            Err(e) => stacks_count_problem(stacks@, products) matches Some(m) && convert_error_view(e)
                == ConvertErrorView::Schema { path: recipe_dir@, message: m },
        },
{
    let mut rows: Vec<StackRow> = Vec::new();
    let mut k: usize = 0;
    while k < stacks.len()
        invariant
            k <= stacks@.len(),
            names_ascending(names_view(names@)),
            forall|j: int| 0 <= j < k ==> count_ok((#[trigger] stacks@[j]).count),
            rows@.map_values(|s: StackRow| stack_row_view(s)) == stacks@.take(k as int).map_values(|s: LuaStack| lua_stack_view(s)),
            forall|x: Seq<char>| #[trigger] names_view(names@).contains(x) <==> (names_view(old(names)@).contains(x)
                || stack_items(stacks@.take(k as int)).contains(x)),
            first_problem(k as nat, stack_count_check(stacks@, products)) is None,
        decreases stacks@.len() - k,
    {
        let st = &stacks[k];
        let ghost check = stack_count_check(stacks@, products);
        let mut field = if products {
            string_of("recipe product count for item `")
        } else {
            string_of("recipe ingredient count for item `")
        };
        push_str(&mut field, st.item.as_str());
        push_str(&mut field, "`");
        proof {
            reveal_strlit("recipe product count for item `");
            reveal_strlit("recipe ingredient count for item `");
            reveal_strlit("`");
            assert(field@ == stack_field(products, st.item@));
        }
        let count = match parse_positive_u32(field.as_str(), st.count) {
            Ok(c) => c,
            Err(message) => {
                let e = ConvertError::Schema { path: string_of(recipe_dir), message };
                proof {
                    assert(check(k as int) == Some(message@));
                    assert(first_problem((k + 1) as nat, check) == Some(message@));
                    lemma_first_problem_stays((k + 1) as nat, stacks@.len(), check);
                }
                return Err(e);
            },
        };
        assert(check(k as int) is None);
        let ghost before_names = names_view(names@);
        insert_name(names, st.item.as_str());
        let ghost before_rows = rows@;
        rows.push(StackRow { item: string_of(st.item.as_str()), count });
        proof {
            let t1 = stacks@.take(k + 1);
            assert(t1 =~= stacks@.take(k as int).push(stacks@[k as int]));
            assert(rows@.map_values(|s: StackRow| stack_row_view(s)) =~= before_rows.map_values(|s: StackRow| stack_row_view(s)).push(
                (st.item@, count),
            ));
            assert(t1.map_values(|s: LuaStack| lua_stack_view(s)) =~= stacks@.take(k as int).map_values(|s: LuaStack| lua_stack_view(s)).push(
                lua_stack_view(stacks@[k as int]),
            ));
            assert(stack_items(t1) =~= stack_items(stacks@.take(k as int)).push(st.item@));
            assert forall|x: Seq<char>| #[trigger] names_view(names@).contains(x) <==> (names_view(old(names)@).contains(x)
                || stack_items(t1).contains(x)) by {
                let p = stack_items(stacks@.take(k as int));
                if p.contains(x) {
                    let j = choose|j: int| 0 <= j < p.len() && p[j] == x;
                    assert(stack_items(t1)[j] == x);
                }
                if stack_items(t1).contains(x) {
                    let j = choose|j: int| 0 <= j < stack_items(t1).len() && stack_items(t1)[j] == x;
                    if j < k {
                        assert(p[j] == x);
                    }
                }
                assert(stack_items(t1)[k as int] == st.item@);
            }
        }
        k = k + 1;
    }
    proof {
        assert(stacks@.take(k as int) =~= stacks@);
    }
    Ok(rows)
}

fn find_power(fp: &Vec<(String, i64)>, f: &str) -> (r: Option<i64>)
    ensures
        r == power_entry(fp@, f@),
{
    let mut i: usize = 0;
    assert(fp@.skip(0) =~= fp@);
    while i < fp.len()
        invariant
            i <= fp@.len(),
            power_entry(fp@, f@) == power_entry(fp@.skip(i as int), f@),
        decreases fp@.len() - i,
    {
        assert(fp@.skip(i as int)[0] == fp@[i as int]);
        assert(fp@.skip(i as int).drop_first() =~= fp@.skip(i + 1));
        if str_eq(fp[i].0.as_str(), f) {
            return Some(fp[i].1);
        }
        i = i + 1;
    }
    None
}

proof fn lemma_concat_contains(a: Seq<Seq<char>>, b: Seq<Seq<char>>, x: Seq<char>)
    ensures
        (a + b).contains(x) <==> (a.contains(x) || b.contains(x)),
{
    if a.contains(x) {
        let k = choose|k: int| 0 <= k < a.len() && a[k] == x;
        assert((a + b)[k] == x);
    }
    if b.contains(x) {
        let k = choose|k: int| 0 <= k < b.len() && b[k] == x;
        assert((a + b)[a.len() + k] == x);
    }
    if (a + b).contains(x) {
        let k = choose|k: int| 0 <= k < (a + b).len() && (a + b)[k] == x;
        if k < a.len() {
            assert(a[k] == x);
        } else {
            assert(b[k - a.len()] == x);
        }
    }
}

/// Converts the recipes of the game data into catalog rows.
///
/// Succeeds exactly when the data converts (see [`convert_valid`]), with the
/// rows [`tables_match`] describes. Otherwise the first problem is
/// reported: recipes are checked in order, then items, then facilities,
/// each in ascending key order. `recipe_dir` and `facility_power_path` name
/// the files that schema errors are about.
pub fn convert_recipes(
    recipes: &Vec<LuaRecipe>,
    facility_power: &Vec<(String, i64)>,
    recipe_dir: &str,
    facility_power_path: &str,
) -> (r: Result<ConvertTables, ConvertError>)
    ensures
        r is Ok <==> convert_valid(recipes@, facility_power@),
        r matches Ok(t) ==> tables_match(t, recipes@, facility_power@),
        r matches Ok(t) ==> forall|k: int|
            0 <= k < t.power_recipes@.len() ==> power_row_from_recipes(#[trigger] t.power_recipes@[k], recipes@),
        r matches Ok(t) ==> forall|k: int|
            0 <= k < t.recipes@.len() ==> recipe_row_from_recipes(#[trigger] t.recipes@[k], recipes@),
        r matches Err(ConvertError::MissingFacilityPower { facility }) ==> machine_names_of(recipes@).contains(facility@)
            && power_entry(facility_power@, facility@) is None,
        r matches Err(ConvertError::MissingI18n { kind, key }) ==> (kind@ == "item"@ && item_names_of(recipes@).contains(key@)
            && spec_item_zh(key@) is None) || (kind@ == "facility"@ && machine_names_of(recipes@).contains(key@)
            && spec_facility_zh(key@) is None),
        r matches Err(ConvertError::Schema { path, .. }) ==> (path@ == recipe_dir@ && exists|i: int|
            0 <= i < recipes@.len() && !lua_recipe_ok(#[trigger] recipes@[i])) || (path@ == facility_power_path@
            && exists|f: Seq<char>| #[trigger] machine_names_of(recipes@).contains(f) && (power_entry(facility_power@, f) matches Some(p) && !count_ok(p))),
        r matches Err(e) ==> convert_error_is(e, recipes@, facility_power@, recipe_dir@, facility_power_path@),
{
    let mut recipe_rows: Vec<RecipeRow> = Vec::new();
    let mut power_rows: Vec<PowerRecipeRow> = Vec::new();
    let mut item_set: Vec<String> = Vec::new();
    let mut machine_set: Vec<String> = Vec::new();
    let mut i: usize = 0;
    while i < recipes.len()
        invariant
            i <= recipes@.len(),
            forall|j: int| 0 <= j < i ==> lua_recipe_ok(#[trigger] recipes@[j]),
            recipe_rows@.map_values(|r: RecipeRow| recipe_row_view(r)) == recipe_rows_of(recipes@.take(i as int)),
            power_rows@.map_values(|r: PowerRecipeRow| power_row_view(r)) == power_rows_of(recipes@.take(i as int)),
            names_ascending(names_view(item_set@)),
            forall|x: Seq<char>| #[trigger] names_view(item_set@).contains(x) <==> item_names_of(recipes@.take(i as int)).contains(x),
            names_ascending(names_view(machine_set@)),
            forall|x: Seq<char>| #[trigger] names_view(machine_set@).contains(x) <==> machine_names_of(recipes@.take(i as int)).contains(x),
            first_problem(i as nat, recipe_convert_check(recipes@)) is None,
        decreases recipes@.len() - i,
    {
        let recipe = &recipes[i];
        let ghost check = recipe_convert_check(recipes@);
        let ghost t1 = recipes@.take(i + 1);
        let ghost t0 = recipes@.take(i as int);
        proof {
            assert(t1.drop_last() =~= t0);
            assert(t1.last() == *recipe);
            reveal_strlit("Thermal Bank");
        }
        if str_eq(recipe.facility.as_str(), "Thermal Bank") {
            let (ingredient, power_w) = match thermal_to_power(recipe) {
                Ok(v) => v,
                Err(message) => {
                    let e = ConvertError::Schema { path: string_of(recipe_dir), message };
                    proof {
                        assert(check(i as int) == Some(message@));
                        assert(first_problem((i + 1) as nat, check) == Some(message@));
                        lemma_first_problem_stays((i + 1) as nat, recipes@.len(), check);
                    }
                    return Err(e);
                },
            };
            assert(check(i as int) is None);
            let ghost before_items = names_view(item_set@);
            insert_name(&mut item_set, ingredient.item.as_str());
            let ghost before_rows = power_rows@;
            power_rows.push(PowerRecipeRow { ingredient, power_w, time_s: recipe.time_s });
            proof {
                assert(power_rows@.map_values(|r: PowerRecipeRow| power_row_view(r)) =~= before_rows.map_values(
                    |r: PowerRecipeRow| power_row_view(r),
                ).push(power_row_view(power_rows@.last())));
                assert forall|x: Seq<char>| #[trigger] names_view(item_set@).contains(x) <==> item_names_of(t1).contains(x) by {
                    let p = item_names_of(t0);
                    if p.contains(x) {
                        let k = choose|k: int| 0 <= k < p.len() && p[k] == x;
                        assert(p.push(recipe.ingredients@[0].item@)[k] == x);
                    }
                    if p.push(recipe.ingredients@[0].item@).contains(x) {
                        let k = choose|k: int| 0 <= k < p.len() + 1 && p.push(recipe.ingredients@[0].item@)[k] == x;
                        if k < p.len() {
                            assert(p[k] == x);
                        }
                    }
                    assert(p.push(recipe.ingredients@[0].item@)[p.len() as int] == recipe.ingredients@[0].item@);
                }
                assert(machine_names_of(t1) == machine_names_of(t0));
                assert(recipe_rows_of(t1) == recipe_rows_of(t0));
            }
        } else {
            let ghost before_machines = names_view(machine_set@);
            insert_name(&mut machine_set, recipe.facility.as_str());
            let ghost items0 = names_view(item_set@);
            assert(!is_thermal(*recipe));
            let ingredients = match convert_stacks(&recipe.ingredients, false, &mut item_set, recipe_dir) {
                Ok(v) => v,
                Err(e) => {
                    proof {
                        let m = stacks_count_problem(recipe.ingredients@, false)->Some_0;
                        assert(check(i as int) == Some(m));
                        assert(first_problem((i + 1) as nat, check) == Some(m));
                        lemma_first_problem_stays((i + 1) as nat, recipes@.len(), check);
                    }
                    return Err(e);
                },
            };
            let ghost items1 = names_view(item_set@);
            let products = match convert_stacks(&recipe.products, true, &mut item_set, recipe_dir) {
                Ok(v) => v,
                Err(e) => {
                    proof {
                        let m = stacks_count_problem(recipe.products@, true)->Some_0;
                        assert(check(i as int) == Some(m));
                        assert(first_problem((i + 1) as nat, check) == Some(m));
                        lemma_first_problem_stays((i + 1) as nat, recipes@.len(), check);
                    }
                    return Err(e);
                },
            };
            assert(check(i as int) is None);
            let ghost before_rows = recipe_rows@;
            recipe_rows.push(
                RecipeRow {
                    facility: string_of(recipe.facility.as_str()),
                    time_s: recipe.time_s,
                    ingredients,
                    products,
                },
            );
            proof {
                assert(recipe_rows@.map_values(|r: RecipeRow| recipe_row_view(r)) =~= before_rows.map_values(
                    |r: RecipeRow| recipe_row_view(r),
                ).push(recipe_row_view(recipe_rows@.last())));
                assert forall|x: Seq<char>| #[trigger] names_view(item_set@).contains(x) <==> item_names_of(t1).contains(x) by {
                    let p = item_names_of(t0);
                    lemma_concat_contains(p, stack_items(recipe.ingredients@), x);
                    lemma_concat_contains(p + stack_items(recipe.ingredients@), stack_items(recipe.products@), x);
                }
                assert forall|x: Seq<char>| #[trigger] names_view(machine_set@).contains(x) <==> machine_names_of(t1).contains(x) by {
                    let p = machine_names_of(t0);
                    if p.contains(x) {
                        let k = choose|k: int| 0 <= k < p.len() && p[k] == x;
                        assert(p.push(recipe.facility@)[k] == x);
                    }
                    if p.push(recipe.facility@).contains(x) {
                        let k = choose|k: int| 0 <= k < p.len() + 1 && p.push(recipe.facility@)[k] == x;
                        if k < p.len() {
                            assert(p[k] == x);
                        }
                    }
                    assert(p.push(recipe.facility@)[p.len() as int] == recipe.facility@);
                }
                assert(power_rows_of(t1) == power_rows_of(t0));
            }
        }
        i = i + 1;
    }
    proof {
        assert(recipes@.take(i as int) =~= recipes@);
    }
    let ghost all_items = item_names_of(recipes@);
    let ghost all_machines = machine_names_of(recipes@);
    // Items, in ascending key order.
    let mut items: Vec<ItemRow> = Vec::new();
    let mut k: usize = 0;
    while k < item_set.len()
        invariant
            forall|j: int| 0 <= j < recipes@.len() ==> lua_recipe_ok(#[trigger] recipes@[j]),
            all_items == item_names_of(recipes@),
            all_machines == machine_names_of(recipes@),
            names_ascending(names_view(item_set@)),
            forall|x: Seq<char>| #[trigger] names_view(item_set@).contains(x) <==> all_items.contains(x),
            names_ascending(names_view(machine_set@)),
            forall|x: Seq<char>| #[trigger] names_view(machine_set@).contains(x) <==> all_machines.contains(x),
            recipe_rows@.map_values(|r: RecipeRow| recipe_row_view(r)) == recipe_rows_of(recipes@),
            power_rows@.map_values(|r: PowerRecipeRow| power_row_view(r)) == power_rows_of(recipes@),
            recipes_convert_problem(recipes@) is None,
            k <= item_set@.len(),
            items@.len() == k,
            forall|j: int| 0 <= j < k ==> (#[trigger] items@[j]).key@ == item_set@[j]@ && items@[j].en@ == item_set@[j]@
                && spec_item_zh(item_set@[j]@) == Some(items@[j].zh@),
        decreases item_set@.len() - k,
    {
        let key = &item_set[k];
        let zh = match item_zh(key.as_str()) {
            Some(z) => z,
            None => {
                proof {
                    reveal_strlit("item");
                    assert(names_view(item_set@)[k as int] == key@);
                    assert(names_view(item_set@).contains(key@));
                    assert(all_items.contains(key@));
                    assert forall|x: Seq<char>|
                        #[trigger] item_names_of(recipes@).contains(x) && spec_item_zh(x) is None implies x == key@
                            || chars_lt(key@, x) by {
                        assert(names_view(item_set@).contains(x));
                        let j = choose|j: int| 0 <= j < names_view(item_set@).len() && names_view(item_set@)[j] == x;
                        if j < k {
                            assert(items@[j].key@ == item_set@[j]@);
                        } else if j > k {
                            assert(chars_lt(names_view(item_set@)[k as int], names_view(item_set@)[j]));
                        }
                    }
                    assert(least_untranslated_item(recipes@, key@));
                }
                return Err(ConvertError::MissingI18n { kind: "item", key: string_of(key.as_str()) });
            },
        };
        items.push(ItemRow { key: string_of(key.as_str()), en: string_of(key.as_str()), zh });
        k = k + 1;
    }
    proof {
        assert forall|x: Seq<char>| #[trigger] all_items.contains(x) implies spec_item_zh(x) is Some by {
            assert(names_view(item_set@).contains(x));
            let j = choose|j: int| 0 <= j < names_view(item_set@).len() && names_view(item_set@)[j] == x;
            assert(items@[j].key@ == x);
        }
    }
    // Machines, in ascending key order.
    let mut machines: Vec<MachineRow> = Vec::new();
    let mut k: usize = 0;
    while k < machine_set.len()
        invariant
            forall|j: int| 0 <= j < recipes@.len() ==> lua_recipe_ok(#[trigger] recipes@[j]),
            all_items == item_names_of(recipes@),
            all_machines == machine_names_of(recipes@),
            names_ascending(names_view(item_set@)),
            forall|x: Seq<char>| #[trigger] names_view(item_set@).contains(x) <==> all_items.contains(x),
            names_ascending(names_view(machine_set@)),
            forall|x: Seq<char>| #[trigger] names_view(machine_set@).contains(x) <==> all_machines.contains(x),
            recipe_rows@.map_values(|r: RecipeRow| recipe_row_view(r)) == recipe_rows_of(recipes@),
            power_rows@.map_values(|r: PowerRecipeRow| power_row_view(r)) == power_rows_of(recipes@),
            items@.len() == item_set@.len(),
            forall|j: int| 0 <= j < item_set@.len() ==> (#[trigger] items@[j]).key@ == item_set@[j]@ && items@[j].en@ == item_set@[j]@
                && spec_item_zh(item_set@[j]@) == Some(items@[j].zh@),
            recipes_convert_problem(recipes@) is None,
            forall|x: Seq<char>| #[trigger] all_items.contains(x) ==> spec_item_zh(x) is Some,
            k <= machine_set@.len(),
            machines@.len() == k,
            forall|j: int| 0 <= j < k ==> (#[trigger] machines@[j]).key@ == machine_set@[j]@ && machines@[j].en@
                == machine_set@[j]@ && spec_facility_zh(machine_set@[j]@) == Some(machines@[j].zh@)
                && power_entry(facility_power@, machine_set@[j]@) == Some(machines@[j].power_w as i64)
                && count_ok(machines@[j].power_w as i64),
        decreases machine_set@.len() - k,
    {
        let key = &machine_set[k];
        proof {
            assert(names_view(machine_set@)[k as int] == key@);
            assert(names_view(machine_set@).contains(key@));
            assert forall|x: Seq<char>|
                #[trigger] machine_names_of(recipes@).contains(x) && machine_convert_problem(
                    facility_power@,
                    facility_power_path@,
                    x,
                ) is Some implies x == key@ || chars_lt(key@, x) by {
                assert(names_view(machine_set@).contains(x));
                let j = choose|j: int| 0 <= j < names_view(machine_set@).len() && names_view(machine_set@)[j] == x;
                if j < k {
                    assert(machines@[j].key@ == machine_set@[j]@);
                    reveal_strlit("facility");
                } else if j > k {
                    assert(chars_lt(names_view(machine_set@)[k as int], names_view(machine_set@)[j]));
                }
            }
            assert(!exists|x: Seq<char>| #[trigger] item_names_of(recipes@).contains(x) && spec_item_zh(x) is None);
        }
        let power = match find_power(facility_power, key.as_str()) {
            Some(p) => p,
            None => {
                let e = ConvertError::MissingFacilityPower { facility: string_of(key.as_str()) };
                proof {
                    assert(least_refused_machine(recipes@, facility_power@, facility_power_path@, key@));
                }
                return Err(e);
            },
        };
        let mut field = string_of("facility_power `");
        push_str(&mut field, key.as_str());
        push_str(&mut field, "`");
        let power_w = match parse_positive_u32(field.as_str(), power) {
            Ok(p) => p,
            Err(message) => {
                let e = ConvertError::Schema { path: string_of(facility_power_path), message };
                proof {
                    reveal_strlit("facility_power `");
                    reveal_strlit("`");
                    assert(field@ == "facility_power `"@ + key@ + "`"@);
                    assert(least_refused_machine(recipes@, facility_power@, facility_power_path@, key@));
                    assert(machine_convert_problem(facility_power@, facility_power_path@, key@) == Some(
                        convert_error_view(e),
                    ));
                }
                return Err(e);
            },
        };
        let zh = match facility_zh(key.as_str()) {
            Some(z) => z,
            None => {
                let e = ConvertError::MissingI18n { kind: "facility", key: string_of(key.as_str()) };
                proof {
                    reveal_strlit("facility");
                    assert(least_refused_machine(recipes@, facility_power@, facility_power_path@, key@));
                    assert(machine_convert_problem(facility_power@, facility_power_path@, key@) == Some(
                        convert_error_view(e),
                    ));
                }
                return Err(e);
            },
        };
        machines.push(
            MachineRow { key: string_of(key.as_str()), power_w, en: string_of(key.as_str()), zh: string_of(zh) },
        );
        k = k + 1;
    }
    proof {
        reveal_strlit("Thermal Bank");
        reveal_strlit("热容池");
        assert forall|x: Seq<char>| #[trigger] all_items.contains(x) implies spec_item_zh(x) is Some by {
            assert(names_view(item_set@).contains(x));
            let j = choose|j: int| 0 <= j < names_view(item_set@).len() && names_view(item_set@)[j] == x;
            assert(items@[j].key@ == x);
        }
        assert forall|f: Seq<char>| #[trigger] all_machines.contains(f) implies (power_entry(facility_power@, f) matches Some(p) && count_ok(p))
            && spec_facility_zh(f) is Some by {
            assert(names_view(machine_set@).contains(f));
            let j = choose|j: int| 0 <= j < names_view(machine_set@).len() && names_view(machine_set@)[j] == f;
            assert(machines@[j].key@ == f);
        }
    }
    let thermal_bank = ThermalBankRow {
        key: string_of("Thermal Bank"),
        en: string_of("Thermal Bank"),
        zh: string_of("热容池"),
    };
    let ghost unsorted_recipes = recipe_rows@;
    let ghost unsorted_power = power_rows@;
    let recipe_rows = sort_by_order(recipe_rows);
    let power_rows = sort_by_order(power_rows);
    proof {
        lemma_sort_stable_view(
            unsorted_recipes,
            |r: RecipeRow| recipe_row_view(r),
            |a: (Seq<char>, u32, Seq<(Seq<char>, u32)>, Seq<(Seq<char>, u32)>), b: (Seq<char>, u32, Seq<(Seq<char>, u32)>, Seq<(Seq<char>, u32)>)| recipe_row_lt(a, b),
        );
        lemma_sort_stable_view(
            unsorted_power,
            |r: PowerRecipeRow| power_row_view(r),
            |a: ((Seq<char>, u32), u32, u32), b: ((Seq<char>, u32), u32, u32)| power_row_lt(a, b),
        );
        let ik = items@.map_values(|r: ItemRow| r.key@);
        assert(ik =~= names_view(item_set@));
        let mk = machines@.map_values(|r: MachineRow| r.key@);
        assert(mk =~= names_view(machine_set@));
    }
    let t = ConvertTables { items, machines, thermal_bank, recipes: recipe_rows, power_recipes: power_rows };
    proof {
        law_power_recipes_from_thermal_bank(t, recipes@, facility_power@);
        law_recipe_rows_from_machine_recipes(t, recipes@, facility_power@);
    }
    Ok(t)
}

} // verus!
