//! The suffix inventory: layers of Kazakh inflectional and derivational
//! suffixes with their harmony class and weakness.
use vstd::prelude::*;

use crate::utf8::{chars_of, is_lit, lit1, lit2, lit4};
use vstd::string::StringSliceAdditionalSpecFns;

verus! {

pub const HARM_ANY: u8 = 0;
pub const HARM_BACK: u8 = 1;
pub const HARM_FRONT: u8 = 2;

pub const LAYER_PRED: i32 = 1;
pub const LAYER_CASE: i32 = 2;
pub const LAYER_POSS: i32 = 3;
pub const LAYER_PLUR: i32 = 4;
pub const LAYER_DERIV: i32 = 5;
pub const LAYER_VPERSON: i32 = 11;
pub const LAYER_VTENSE: i32 = 12;
pub const LAYER_VNEG: i32 = 13;
pub const LAYER_VVOICE: i32 = 14;

/// Number of bytes of `b` that start a UTF-8 encoded character (that are not
/// continuation bytes of the form `10xxxxxx`).
pub open spec fn lead_byte_count(b: Seq<u8>) -> nat
    decreases b.len(),
{
    if b.len() == 0 {
        0
    } else {
        lead_byte_count(b.drop_last()) + if b.last() & 0b1100_0000 != 0b1000_0000 {
            1nat
        } else {
            0nat
        }
    }
}

/// Counts the characters of `s` by counting the bytes that are not UTF-8
/// continuation bytes.
pub fn const_char_count(s: &str) -> (r: i32)
    ensures
        r == lead_byte_count(s.spec_bytes()) as i32,
{
    let b = s.as_bytes();
    let mut i: usize = 0;
    let mut count: usize = 0;
    assert(b@.take(0) =~= Seq::<u8>::empty());
    while i < b.len()
        invariant
            i <= b@.len(),
            b@ == s.spec_bytes(),
            count == lead_byte_count(b@.take(i as int)),
            count <= i,
        decreases b@.len() - i,
    {
        assert(b@.take(i + 1).drop_last() =~= b@.take(i as int));
        if b[i] & 0b1100_0000 != 0b1000_0000 {
            count += 1;
        }
        i += 1;
    }
    assert(b@.take(b@.len() as int) =~= b@);
    count as i32
}

/// One suffix with its harmony requirement; weak suffixes are short,
/// ambiguous endings whose removal is penalised.
#[derive(Copy, Clone, Debug)]
pub struct SuffixRule {
    pub suffix: &'static str,
    pub sfx_chars: i32,
    pub harmony: u8,
    pub weak: bool,
}

/// A layer of alternative suffixes; `kind` is 1 for nominal inflection, 2 for
/// verbal inflection, 3 for derivation.
#[derive(Clone, Debug)]
pub struct LayerDef {
    pub rules: Vec<SuffixRule>,
    pub layer_id: i32,
    pub repeat: bool,
    pub kind: i32,
}

/// A layer's contents.
pub struct LayerSpec {
    pub rules: Seq<SuffixRule>,
    pub layer_id: i32,
    pub repeat: bool,
    pub kind: i32,
}

impl View for LayerDef {
    type V = LayerSpec;

    open spec fn view(&self) -> LayerSpec {
        LayerSpec { rules: self.rules@, layer_id: self.layer_id, repeat: self.repeat, kind: self.kind }
    }
}

/// The rule for `suffix`, its character count taken from its UTF-8 bytes.
pub open spec fn spec_sfx(suffix: &'static str, harmony: u8, weak: bool) -> SuffixRule {
    SuffixRule {
        suffix,
        sfx_chars: lead_byte_count(suffix.spec_bytes()) as i32,
        harmony,
        weak,
    }
}

fn sfx(suffix: &'static str, harmony: u8, weak: bool) -> (r: SuffixRule)
    ensures
        r == spec_sfx(suffix, harmony, weak),
{
    SuffixRule { suffix, sfx_chars: const_char_count(suffix), harmony, weak }
}

pub open spec fn spec_pred_rules() -> Seq<SuffixRule> {
    Seq::empty()
        .push(spec_sfx("сыңдар", HARM_ANY, false))
        .push(spec_sfx("сіңдер", HARM_ANY, false))
        .push(spec_sfx("сыздар", HARM_ANY, false))
        .push(spec_sfx("сіздер", HARM_ANY, false))
        .push(spec_sfx("сыз", HARM_BACK, false))
        .push(spec_sfx("сіз", HARM_FRONT, false))
        .push(spec_sfx("сың", HARM_BACK, false))
        .push(spec_sfx("сің", HARM_FRONT, false))
        .push(spec_sfx("мын", HARM_BACK, false))
        .push(spec_sfx("мін", HARM_FRONT, false))
        .push(spec_sfx("бын", HARM_BACK, false))
        .push(spec_sfx("бін", HARM_FRONT, false))
        .push(spec_sfx("пын", HARM_BACK, false))
        .push(spec_sfx("пін", HARM_FRONT, false))
        .push(spec_sfx("мыз", HARM_BACK, false))
        .push(spec_sfx("міз", HARM_FRONT, false))
}

fn pred_rules() -> (v: Vec<SuffixRule>)
    ensures
        v@ == spec_pred_rules(),
{
    let mut v: Vec<SuffixRule> = Vec::new();
    v.push(sfx("сыңдар", HARM_ANY, false));
    v.push(sfx("сіңдер", HARM_ANY, false));
    v.push(sfx("сыздар", HARM_ANY, false));
    v.push(sfx("сіздер", HARM_ANY, false));
    v.push(sfx("сыз", HARM_BACK, false));
    v.push(sfx("сіз", HARM_FRONT, false));
    v.push(sfx("сың", HARM_BACK, false));
    v.push(sfx("сің", HARM_FRONT, false));
    v.push(sfx("мын", HARM_BACK, false));
    v.push(sfx("мін", HARM_FRONT, false));
    v.push(sfx("бын", HARM_BACK, false));
    v.push(sfx("бін", HARM_FRONT, false));
    v.push(sfx("пын", HARM_BACK, false));
    v.push(sfx("пін", HARM_FRONT, false));
    v.push(sfx("мыз", HARM_BACK, false));
    v.push(sfx("міз", HARM_FRONT, false));
    v
}

pub open spec fn spec_case_rules() -> Seq<SuffixRule> {
    Seq::empty()
        .push(spec_sfx("ның", HARM_BACK, false))
        .push(spec_sfx("нің", HARM_FRONT, false))
        .push(spec_sfx("дың", HARM_BACK, false))
        .push(spec_sfx("дің", HARM_FRONT, false))
        .push(spec_sfx("тың", HARM_BACK, false))
        .push(spec_sfx("тің", HARM_FRONT, false))
        .push(spec_sfx("нан", HARM_BACK, false))
        .push(spec_sfx("нен", HARM_FRONT, false))
        .push(spec_sfx("дан", HARM_BACK, false))
        .push(spec_sfx("ден", HARM_FRONT, false))
        .push(spec_sfx("тан", HARM_BACK, false))
        .push(spec_sfx("тен", HARM_FRONT, false))
        .push(spec_sfx("нда", HARM_BACK, false))
        .push(spec_sfx("нде", HARM_FRONT, false))
        .push(spec_sfx("бен", HARM_ANY, false))
        .push(spec_sfx("пен", HARM_ANY, false))
        .push(spec_sfx("мен", HARM_ANY, false))
        .push(spec_sfx("ға", HARM_BACK, false))
        .push(spec_sfx("ге", HARM_FRONT, false))
        .push(spec_sfx("қа", HARM_BACK, false))
        .push(spec_sfx("ке", HARM_FRONT, false))
        .push(spec_sfx("на", HARM_BACK, false))
        .push(spec_sfx("не", HARM_FRONT, false))
        .push(spec_sfx("ңа", HARM_BACK, false))
        .push(spec_sfx("ңе", HARM_FRONT, false))
        .push(spec_sfx("ны", HARM_BACK, false))
        .push(spec_sfx("ні", HARM_FRONT, false))
        .push(spec_sfx("а", HARM_BACK, true))
        .push(spec_sfx("е", HARM_FRONT, true))
        .push(spec_sfx("ды", HARM_BACK, false))
        .push(spec_sfx("ді", HARM_FRONT, false))
        .push(spec_sfx("ты", HARM_BACK, false))
        .push(spec_sfx("ті", HARM_FRONT, false))
        .push(spec_sfx("ын", HARM_BACK, false))
        .push(spec_sfx("ін", HARM_FRONT, false))
        .push(spec_sfx("да", HARM_BACK, false))
        .push(spec_sfx("де", HARM_FRONT, false))
        .push(spec_sfx("та", HARM_BACK, false))
        .push(spec_sfx("те", HARM_FRONT, false))
        .push(spec_sfx("н", HARM_ANY, true))
}

fn case_rules() -> (v: Vec<SuffixRule>)
    ensures
        v@ == spec_case_rules(),
{
    let mut v: Vec<SuffixRule> = Vec::new();
    v.push(sfx("ның", HARM_BACK, false));
    v.push(sfx("нің", HARM_FRONT, false));
    v.push(sfx("дың", HARM_BACK, false));
    v.push(sfx("дің", HARM_FRONT, false));
    v.push(sfx("тың", HARM_BACK, false));
    v.push(sfx("тің", HARM_FRONT, false));
    v.push(sfx("нан", HARM_BACK, false));
    v.push(sfx("нен", HARM_FRONT, false));
    v.push(sfx("дан", HARM_BACK, false));
    v.push(sfx("ден", HARM_FRONT, false));
    v.push(sfx("тан", HARM_BACK, false));
    v.push(sfx("тен", HARM_FRONT, false));
    v.push(sfx("нда", HARM_BACK, false));
    v.push(sfx("нде", HARM_FRONT, false));
    v.push(sfx("бен", HARM_ANY, false));
    v.push(sfx("пен", HARM_ANY, false));
    v.push(sfx("мен", HARM_ANY, false));
    v.push(sfx("ға", HARM_BACK, false));
    v.push(sfx("ге", HARM_FRONT, false));
    v.push(sfx("қа", HARM_BACK, false));
    v.push(sfx("ке", HARM_FRONT, false));
    v.push(sfx("на", HARM_BACK, false));
    v.push(sfx("не", HARM_FRONT, false));
    v.push(sfx("ңа", HARM_BACK, false));
    v.push(sfx("ңе", HARM_FRONT, false));
    v.push(sfx("ны", HARM_BACK, false));
    v.push(sfx("ні", HARM_FRONT, false));
    v.push(sfx("а", HARM_BACK, true));
    v.push(sfx("е", HARM_FRONT, true));
    v.push(sfx("ды", HARM_BACK, false));
    v.push(sfx("ді", HARM_FRONT, false));
    v.push(sfx("ты", HARM_BACK, false));
    v.push(sfx("ті", HARM_FRONT, false));
    v.push(sfx("ын", HARM_BACK, false));
    v.push(sfx("ін", HARM_FRONT, false));
    v.push(sfx("да", HARM_BACK, false));
    v.push(sfx("де", HARM_FRONT, false));
    v.push(sfx("та", HARM_BACK, false));
    v.push(sfx("те", HARM_FRONT, false));
    v.push(sfx("н", HARM_ANY, true));
    v
}

pub open spec fn spec_poss_rules() -> Seq<SuffixRule> {
    Seq::empty()
        .push(spec_sfx("ымыз", HARM_BACK, false))
        .push(spec_sfx("іміз", HARM_FRONT, false))
        .push(spec_sfx("ыңыз", HARM_BACK, false))
        .push(spec_sfx("іңіз", HARM_FRONT, false))
        .push(spec_sfx("лары", HARM_BACK, false))
        .push(spec_sfx("лері", HARM_FRONT, false))
        .push(spec_sfx("дары", HARM_BACK, false))
        .push(spec_sfx("дері", HARM_FRONT, false))
        .push(spec_sfx("тары", HARM_BACK, false))
        .push(spec_sfx("тері", HARM_FRONT, false))
        .push(spec_sfx("мыз", HARM_BACK, false))
        .push(spec_sfx("міз", HARM_FRONT, false))
        .push(spec_sfx("ңыз", HARM_BACK, false))
        .push(spec_sfx("ңіз", HARM_FRONT, false))
        .push(spec_sfx("сы", HARM_BACK, true))
        .push(spec_sfx("сі", HARM_FRONT, true))
        .push(spec_sfx("ым", HARM_BACK, false))
        .push(spec_sfx("ім", HARM_FRONT, false))
        .push(spec_sfx("ың", HARM_BACK, false))
        .push(spec_sfx("ің", HARM_FRONT, false))
        .push(spec_sfx("ы", HARM_BACK, true))
        .push(spec_sfx("і", HARM_FRONT, true))
        .push(spec_sfx("м", HARM_ANY, true))
        .push(spec_sfx("ң", HARM_ANY, true))
}

fn poss_rules() -> (v: Vec<SuffixRule>)
    ensures
        v@ == spec_poss_rules(),
{
    let mut v: Vec<SuffixRule> = Vec::new();
    v.push(sfx("ымыз", HARM_BACK, false));
    v.push(sfx("іміз", HARM_FRONT, false));
    v.push(sfx("ыңыз", HARM_BACK, false));
    v.push(sfx("іңіз", HARM_FRONT, false));
    v.push(sfx("лары", HARM_BACK, false));
    v.push(sfx("лері", HARM_FRONT, false));
    v.push(sfx("дары", HARM_BACK, false));
    v.push(sfx("дері", HARM_FRONT, false));
    v.push(sfx("тары", HARM_BACK, false));
    v.push(sfx("тері", HARM_FRONT, false));
    v.push(sfx("мыз", HARM_BACK, false));
    v.push(sfx("міз", HARM_FRONT, false));
    v.push(sfx("ңыз", HARM_BACK, false));
    v.push(sfx("ңіз", HARM_FRONT, false));
    v.push(sfx("сы", HARM_BACK, true));
    v.push(sfx("сі", HARM_FRONT, true));
    v.push(sfx("ым", HARM_BACK, false));
    v.push(sfx("ім", HARM_FRONT, false));
    v.push(sfx("ың", HARM_BACK, false));
    v.push(sfx("ің", HARM_FRONT, false));
    v.push(sfx("ы", HARM_BACK, true));
    v.push(sfx("і", HARM_FRONT, true));
    v.push(sfx("м", HARM_ANY, true));
    v.push(sfx("ң", HARM_ANY, true));
    v
}

pub open spec fn spec_plur_rules() -> Seq<SuffixRule> {
    Seq::empty()
        .push(spec_sfx("дар", HARM_BACK, false))
        .push(spec_sfx("дер", HARM_FRONT, false))
        .push(spec_sfx("лар", HARM_BACK, false))
        .push(spec_sfx("лер", HARM_FRONT, false))
        .push(spec_sfx("тар", HARM_BACK, false))
        .push(spec_sfx("тер", HARM_FRONT, false))
}

fn plur_rules() -> (v: Vec<SuffixRule>)
    ensures
        v@ == spec_plur_rules(),
{
    let mut v: Vec<SuffixRule> = Vec::new();
    v.push(sfx("дар", HARM_BACK, false));
    v.push(sfx("дер", HARM_FRONT, false));
    v.push(sfx("лар", HARM_BACK, false));
    v.push(sfx("лер", HARM_FRONT, false));
    v.push(sfx("тар", HARM_BACK, false));
    v.push(sfx("тер", HARM_FRONT, false));
    v
}

pub open spec fn spec_deriv_rules() -> Seq<SuffixRule> {
    Seq::empty()
        .push(spec_sfx("ндағы", HARM_BACK, false))
        .push(spec_sfx("ндегі", HARM_FRONT, false))
        .push(spec_sfx("дағы", HARM_BACK, false))
        .push(spec_sfx("дегі", HARM_FRONT, false))
        .push(spec_sfx("тағы", HARM_BACK, false))
        .push(spec_sfx("тегі", HARM_FRONT, false))
        .push(spec_sfx("нікі", HARM_ANY, true))
        .push(spec_sfx("дікі", HARM_ANY, true))
        .push(spec_sfx("тікі", HARM_ANY, true))
        .push(spec_sfx("ырақ", HARM_BACK, false))
        .push(spec_sfx("ірек", HARM_FRONT, false))
        .push(spec_sfx("рақ", HARM_BACK, false))
        .push(spec_sfx("рек", HARM_FRONT, false))
        .push(spec_sfx("лау", HARM_BACK, false))
        .push(spec_sfx("леу", HARM_FRONT, false))
        .push(spec_sfx("дау", HARM_BACK, false))
        .push(spec_sfx("деу", HARM_FRONT, false))
        .push(spec_sfx("тау", HARM_BACK, false))
        .push(spec_sfx("теу", HARM_FRONT, false))
        .push(spec_sfx("лы", HARM_BACK, true))
        .push(spec_sfx("лі", HARM_FRONT, true))
        .push(spec_sfx("лық", HARM_BACK, false))
        .push(spec_sfx("лік", HARM_FRONT, false))
        .push(spec_sfx("дық", HARM_BACK, false))
        .push(spec_sfx("дік", HARM_FRONT, false))
        .push(spec_sfx("тық", HARM_BACK, false))
        .push(spec_sfx("тік", HARM_FRONT, false))
        .push(spec_sfx("шы", HARM_BACK, true))
        .push(spec_sfx("ші", HARM_FRONT, true))
        .push(spec_sfx("ша", HARM_BACK, true))
        .push(spec_sfx("ше", HARM_FRONT, true))
        .push(spec_sfx("сыз", HARM_BACK, false))
        .push(spec_sfx("сіз", HARM_FRONT, false))
        .push(spec_sfx("ғы", HARM_BACK, true))
        .push(spec_sfx("гі", HARM_FRONT, true))
        .push(spec_sfx("ншы", HARM_BACK, false))
        .push(spec_sfx("нші", HARM_FRONT, false))
        .push(spec_sfx("дай", HARM_BACK, false))
        .push(spec_sfx("дей", HARM_FRONT, false))
        .push(spec_sfx("тай", HARM_BACK, false))
        .push(spec_sfx("тей", HARM_FRONT, false))
        .push(spec_sfx("ба", HARM_BACK, true))
        .push(spec_sfx("бе", HARM_FRONT, true))
}

fn deriv_rules() -> (v: Vec<SuffixRule>)
    ensures
        v@ == spec_deriv_rules(),
{
    let mut v: Vec<SuffixRule> = Vec::new();
    v.push(sfx("ндағы", HARM_BACK, false));
    v.push(sfx("ндегі", HARM_FRONT, false));
    v.push(sfx("дағы", HARM_BACK, false));
    v.push(sfx("дегі", HARM_FRONT, false));
    v.push(sfx("тағы", HARM_BACK, false));
    v.push(sfx("тегі", HARM_FRONT, false));
    v.push(sfx("нікі", HARM_ANY, true));
    v.push(sfx("дікі", HARM_ANY, true));
    v.push(sfx("тікі", HARM_ANY, true));
    v.push(sfx("ырақ", HARM_BACK, false));
    v.push(sfx("ірек", HARM_FRONT, false));
    v.push(sfx("рақ", HARM_BACK, false));
    v.push(sfx("рек", HARM_FRONT, false));
    v.push(sfx("лау", HARM_BACK, false));
    v.push(sfx("леу", HARM_FRONT, false));
    v.push(sfx("дау", HARM_BACK, false));
    v.push(sfx("деу", HARM_FRONT, false));
    v.push(sfx("тау", HARM_BACK, false));
    v.push(sfx("теу", HARM_FRONT, false));
    v.push(sfx("лы", HARM_BACK, true));
    v.push(sfx("лі", HARM_FRONT, true));
    v.push(sfx("лық", HARM_BACK, false));
    v.push(sfx("лік", HARM_FRONT, false));
    v.push(sfx("дық", HARM_BACK, false));
    v.push(sfx("дік", HARM_FRONT, false));
    v.push(sfx("тық", HARM_BACK, false));
    v.push(sfx("тік", HARM_FRONT, false));
    v.push(sfx("шы", HARM_BACK, true));
    v.push(sfx("ші", HARM_FRONT, true));
    v.push(sfx("ша", HARM_BACK, true));
    v.push(sfx("ше", HARM_FRONT, true));
    v.push(sfx("сыз", HARM_BACK, false));
    v.push(sfx("сіз", HARM_FRONT, false));
    v.push(sfx("ғы", HARM_BACK, true));
    v.push(sfx("гі", HARM_FRONT, true));
    v.push(sfx("ншы", HARM_BACK, false));
    v.push(sfx("нші", HARM_FRONT, false));
    v.push(sfx("дай", HARM_BACK, false));
    v.push(sfx("дей", HARM_FRONT, false));
    v.push(sfx("тай", HARM_BACK, false));
    v.push(sfx("тей", HARM_FRONT, false));
    v.push(sfx("ба", HARM_BACK, true));
    v.push(sfx("бе", HARM_FRONT, true));
    v
}

pub open spec fn spec_vperson_rules() -> Seq<SuffixRule> {
    Seq::empty()
        .push(spec_sfx("сыңдар", HARM_ANY, false))
        .push(spec_sfx("сіңдер", HARM_ANY, false))
        .push(spec_sfx("сыздар", HARM_BACK, false))
        .push(spec_sfx("сіздер", HARM_FRONT, false))
        .push(spec_sfx("мыз", HARM_BACK, false))
        .push(spec_sfx("міз", HARM_FRONT, false))
        .push(spec_sfx("сыз", HARM_BACK, false))
        .push(spec_sfx("сіз", HARM_FRONT, false))
        .push(spec_sfx("сың", HARM_BACK, false))
        .push(spec_sfx("сің", HARM_FRONT, false))
        .push(spec_sfx("мын", HARM_BACK, false))
        .push(spec_sfx("мін", HARM_FRONT, false))
        .push(spec_sfx("бын", HARM_BACK, false))
        .push(spec_sfx("бін", HARM_FRONT, false))
        .push(spec_sfx("пын", HARM_BACK, false))
        .push(spec_sfx("пін", HARM_FRONT, false))
        .push(spec_sfx("м", HARM_ANY, true))
        .push(spec_sfx("ң", HARM_ANY, true))
        .push(spec_sfx("қ", HARM_BACK, true))
        .push(spec_sfx("к", HARM_FRONT, true))
}

fn vperson_rules() -> (v: Vec<SuffixRule>)
    ensures
        v@ == spec_vperson_rules(),
{
    let mut v: Vec<SuffixRule> = Vec::new();
    v.push(sfx("сыңдар", HARM_ANY, false));
    v.push(sfx("сіңдер", HARM_ANY, false));
    v.push(sfx("сыздар", HARM_BACK, false));
    v.push(sfx("сіздер", HARM_FRONT, false));
    v.push(sfx("мыз", HARM_BACK, false));
    v.push(sfx("міз", HARM_FRONT, false));
    v.push(sfx("сыз", HARM_BACK, false));
    v.push(sfx("сіз", HARM_FRONT, false));
    v.push(sfx("сың", HARM_BACK, false));
    v.push(sfx("сің", HARM_FRONT, false));
    v.push(sfx("мын", HARM_BACK, false));
    v.push(sfx("мін", HARM_FRONT, false));
    v.push(sfx("бын", HARM_BACK, false));
    v.push(sfx("бін", HARM_FRONT, false));
    v.push(sfx("пын", HARM_BACK, false));
    v.push(sfx("пін", HARM_FRONT, false));
    v.push(sfx("м", HARM_ANY, true));
    v.push(sfx("ң", HARM_ANY, true));
    v.push(sfx("қ", HARM_BACK, true));
    v.push(sfx("к", HARM_FRONT, true));
    v
}

pub open spec fn spec_vtense_rules() -> Seq<SuffixRule> {
    Seq::empty()
        .push(spec_sfx("майды", HARM_BACK, false))
        .push(spec_sfx("мейді", HARM_FRONT, false))
        .push(spec_sfx("байды", HARM_BACK, false))
        .push(spec_sfx("бейді", HARM_FRONT, false))
        .push(spec_sfx("пайды", HARM_BACK, false))
        .push(spec_sfx("пейді", HARM_FRONT, false))
        .push(spec_sfx("атын", HARM_BACK, false))
        .push(spec_sfx("етін", HARM_FRONT, false))
        .push(spec_sfx("йтын", HARM_BACK, false))
        .push(spec_sfx("йтін", HARM_FRONT, false))
        .push(spec_sfx("ыпты", HARM_BACK, false))
        .push(spec_sfx("іпті", HARM_FRONT, false))
        .push(spec_sfx("пты", HARM_BACK, false))
        .push(spec_sfx("пті", HARM_FRONT, false))
        .push(spec_sfx("йды", HARM_ANY, false))
        .push(spec_sfx("йді", HARM_ANY, false))
        .push(spec_sfx("ады", HARM_BACK, false))
        .push(spec_sfx("еді", HARM_FRONT, false))
        .push(spec_sfx("ған", HARM_BACK, false))
        .push(spec_sfx("ген", HARM_FRONT, false))
        .push(spec_sfx("қан", HARM_BACK, false))
        .push(spec_sfx("кен", HARM_FRONT, false))
        .push(spec_sfx("май", HARM_BACK, false))
        .push(spec_sfx("мей", HARM_FRONT, false))
        .push(spec_sfx("саң", HARM_BACK, false))
        .push(spec_sfx("сең", HARM_FRONT, false))
        .push(spec_sfx("сақ", HARM_BACK, false))
        .push(spec_sfx("сек", HARM_FRONT, false))
        .push(spec_sfx("тын", HARM_BACK, false))
        .push(spec_sfx("тін", HARM_FRONT, false))
        .push(spec_sfx("мақ", HARM_BACK, false))
        .push(spec_sfx("мек", HARM_FRONT, false))
        .push(spec_sfx("бақ", HARM_BACK, false))
        .push(spec_sfx("бек", HARM_FRONT, false))
        .push(spec_sfx("пақ", HARM_BACK, false))
        .push(spec_sfx("пек", HARM_FRONT, false))
        .push(spec_sfx("ды", HARM_BACK, false))
        .push(spec_sfx("ді", HARM_FRONT, false))
        .push(spec_sfx("ты", HARM_BACK, false))
        .push(spec_sfx("ті", HARM_FRONT, false))
        .push(spec_sfx("ып", HARM_BACK, false))
        .push(spec_sfx("іп", HARM_FRONT, false))
        .push(spec_sfx("са", HARM_BACK, false))
        .push(spec_sfx("се", HARM_FRONT, false))
        .push(spec_sfx("у", HARM_ANY, true))
        .push(spec_sfx("й", HARM_ANY, true))
        .push(spec_sfx("а", HARM_BACK, true))
        .push(spec_sfx("е", HARM_FRONT, true))
}

fn vtense_rules() -> (v: Vec<SuffixRule>)
    ensures
        v@ == spec_vtense_rules(),
{
    let mut v: Vec<SuffixRule> = Vec::new();
    v.push(sfx("майды", HARM_BACK, false));
    v.push(sfx("мейді", HARM_FRONT, false));
    v.push(sfx("байды", HARM_BACK, false));
    v.push(sfx("бейді", HARM_FRONT, false));
    v.push(sfx("пайды", HARM_BACK, false));
    v.push(sfx("пейді", HARM_FRONT, false));
    v.push(sfx("атын", HARM_BACK, false));
    v.push(sfx("етін", HARM_FRONT, false));
    v.push(sfx("йтын", HARM_BACK, false));
    v.push(sfx("йтін", HARM_FRONT, false));
    v.push(sfx("ыпты", HARM_BACK, false));
    v.push(sfx("іпті", HARM_FRONT, false));
    v.push(sfx("пты", HARM_BACK, false));
    v.push(sfx("пті", HARM_FRONT, false));
    v.push(sfx("йды", HARM_ANY, false));
    v.push(sfx("йді", HARM_ANY, false));
    v.push(sfx("ады", HARM_BACK, false));
    v.push(sfx("еді", HARM_FRONT, false));
    v.push(sfx("ған", HARM_BACK, false));
    v.push(sfx("ген", HARM_FRONT, false));
    v.push(sfx("қан", HARM_BACK, false));
    v.push(sfx("кен", HARM_FRONT, false));
    v.push(sfx("май", HARM_BACK, false));
    v.push(sfx("мей", HARM_FRONT, false));
    v.push(sfx("саң", HARM_BACK, false));
    v.push(sfx("сең", HARM_FRONT, false));
    v.push(sfx("сақ", HARM_BACK, false));
    v.push(sfx("сек", HARM_FRONT, false));
    v.push(sfx("тын", HARM_BACK, false));
    v.push(sfx("тін", HARM_FRONT, false));
    v.push(sfx("мақ", HARM_BACK, false));
    v.push(sfx("мек", HARM_FRONT, false));
    v.push(sfx("бақ", HARM_BACK, false));
    v.push(sfx("бек", HARM_FRONT, false));
    v.push(sfx("пақ", HARM_BACK, false));
    v.push(sfx("пек", HARM_FRONT, false));
    v.push(sfx("ды", HARM_BACK, false));
    v.push(sfx("ді", HARM_FRONT, false));
    v.push(sfx("ты", HARM_BACK, false));
    v.push(sfx("ті", HARM_FRONT, false));
    v.push(sfx("ып", HARM_BACK, false));
    v.push(sfx("іп", HARM_FRONT, false));
    v.push(sfx("са", HARM_BACK, false));
    v.push(sfx("се", HARM_FRONT, false));
    v.push(sfx("у", HARM_ANY, true));
    v.push(sfx("й", HARM_ANY, true));
    v.push(sfx("а", HARM_BACK, true));
    v.push(sfx("е", HARM_FRONT, true));
    v
}

pub open spec fn spec_vneg_rules() -> Seq<SuffixRule> {
    Seq::empty()
        .push(spec_sfx("ма", HARM_BACK, false))
        .push(spec_sfx("ме", HARM_FRONT, false))
        .push(spec_sfx("ба", HARM_BACK, false))
        .push(spec_sfx("бе", HARM_FRONT, false))
        .push(spec_sfx("па", HARM_BACK, false))
        .push(spec_sfx("пе", HARM_FRONT, false))
}

fn vneg_rules() -> (v: Vec<SuffixRule>)
    ensures
        v@ == spec_vneg_rules(),
{
    let mut v: Vec<SuffixRule> = Vec::new();
    v.push(sfx("ма", HARM_BACK, false));
    v.push(sfx("ме", HARM_FRONT, false));
    v.push(sfx("ба", HARM_BACK, false));
    v.push(sfx("бе", HARM_FRONT, false));
    v.push(sfx("па", HARM_BACK, false));
    v.push(sfx("пе", HARM_FRONT, false));
    v
}

pub open spec fn spec_vvoice_rules() -> Seq<SuffixRule> {
    Seq::empty()
        .push(spec_sfx("қыз", HARM_BACK, false))
        .push(spec_sfx("кіз", HARM_FRONT, false))
        .push(spec_sfx("ғыз", HARM_BACK, false))
        .push(spec_sfx("гіз", HARM_FRONT, false))
        .push(spec_sfx("тыр", HARM_BACK, false))
        .push(spec_sfx("тір", HARM_FRONT, false))
        .push(spec_sfx("дыр", HARM_BACK, false))
        .push(spec_sfx("дір", HARM_FRONT, false))
        .push(spec_sfx("ыл", HARM_BACK, false))
        .push(spec_sfx("іл", HARM_FRONT, false))
        .push(spec_sfx("ыс", HARM_BACK, false))
        .push(spec_sfx("іс", HARM_FRONT, false))
        .push(spec_sfx("ын", HARM_BACK, false))
        .push(spec_sfx("ін", HARM_FRONT, false))
}

fn vvoice_rules() -> (v: Vec<SuffixRule>)
    ensures
        v@ == spec_vvoice_rules(),
{
    let mut v: Vec<SuffixRule> = Vec::new();
    v.push(sfx("қыз", HARM_BACK, false));
    v.push(sfx("кіз", HARM_FRONT, false));
    v.push(sfx("ғыз", HARM_BACK, false));
    v.push(sfx("гіз", HARM_FRONT, false));
    v.push(sfx("тыр", HARM_BACK, false));
    v.push(sfx("тір", HARM_FRONT, false));
    v.push(sfx("дыр", HARM_BACK, false));
    v.push(sfx("дір", HARM_FRONT, false));
    v.push(sfx("ыл", HARM_BACK, false));
    v.push(sfx("іл", HARM_FRONT, false));
    v.push(sfx("ыс", HARM_BACK, false));
    v.push(sfx("іс", HARM_FRONT, false));
    v.push(sfx("ын", HARM_BACK, false));
    v.push(sfx("ін", HARM_FRONT, false));
    v
}

/// Noun layers, outermost first: predicative, case, possessive, plural,
/// derivation (repeatable).
#[verifier::opaque]
pub open spec fn spec_noun_layers() -> Seq<LayerSpec> {
    Seq::empty()
        .push(LayerSpec { rules: spec_pred_rules(), layer_id: LAYER_PRED, repeat: false, kind: 1 })
        .push(LayerSpec { rules: spec_case_rules(), layer_id: LAYER_CASE, repeat: false, kind: 1 })
        .push(LayerSpec { rules: spec_poss_rules(), layer_id: LAYER_POSS, repeat: false, kind: 1 })
        .push(LayerSpec { rules: spec_plur_rules(), layer_id: LAYER_PLUR, repeat: false, kind: 1 })
        .push(LayerSpec { rules: spec_deriv_rules(), layer_id: LAYER_DERIV, repeat: true, kind: 3 })
}

pub fn noun_layers() -> (v: Vec<LayerDef>)
    ensures
        v@.map_values(|l: LayerDef| l@) == spec_noun_layers(),
        v@.len() == 5,
{
    reveal(spec_noun_layers);
    let mut v: Vec<LayerDef> = Vec::new();
    assert(v@.map_values(|l: LayerDef| l@) =~= Seq::<LayerSpec>::empty());
    let ghost prev = v@.map_values(|l: LayerDef| l@);
    v.push(LayerDef { rules: pred_rules(), layer_id: LAYER_PRED, repeat: false, kind: 1 });
    assert(v@.map_values(|l: LayerDef| l@) =~= prev.push(v@.last()@));
    let ghost prev = v@.map_values(|l: LayerDef| l@);
    v.push(LayerDef { rules: case_rules(), layer_id: LAYER_CASE, repeat: false, kind: 1 });
    assert(v@.map_values(|l: LayerDef| l@) =~= prev.push(v@.last()@));
    let ghost prev = v@.map_values(|l: LayerDef| l@);
    v.push(LayerDef { rules: poss_rules(), layer_id: LAYER_POSS, repeat: false, kind: 1 });
    assert(v@.map_values(|l: LayerDef| l@) =~= prev.push(v@.last()@));
    let ghost prev = v@.map_values(|l: LayerDef| l@);
    v.push(LayerDef { rules: plur_rules(), layer_id: LAYER_PLUR, repeat: false, kind: 1 });
    assert(v@.map_values(|l: LayerDef| l@) =~= prev.push(v@.last()@));
    let ghost prev = v@.map_values(|l: LayerDef| l@);
    v.push(LayerDef { rules: deriv_rules(), layer_id: LAYER_DERIV, repeat: true, kind: 3 });
    assert(v@.map_values(|l: LayerDef| l@) =~= prev.push(v@.last()@));
    v
}

/// Verb layers, outermost first: person, tense, negation, voice (repeatable).
#[verifier::opaque]
pub open spec fn spec_verb_layers() -> Seq<LayerSpec> {
    Seq::empty()
        .push(LayerSpec { rules: spec_vperson_rules(), layer_id: LAYER_VPERSON, repeat: false, kind: 2 })
        .push(LayerSpec { rules: spec_vtense_rules(), layer_id: LAYER_VTENSE, repeat: false, kind: 2 })
        .push(LayerSpec { rules: spec_vneg_rules(), layer_id: LAYER_VNEG, repeat: false, kind: 2 })
        .push(LayerSpec { rules: spec_vvoice_rules(), layer_id: LAYER_VVOICE, repeat: true, kind: 2 })
}

pub fn verb_layers() -> (v: Vec<LayerDef>)
    ensures
        v@.map_values(|l: LayerDef| l@) == spec_verb_layers(),
        v@.len() == 4,
{
    reveal(spec_verb_layers);
    let mut v: Vec<LayerDef> = Vec::new();
    assert(v@.map_values(|l: LayerDef| l@) =~= Seq::<LayerSpec>::empty());
    let ghost prev = v@.map_values(|l: LayerDef| l@);
    v.push(LayerDef { rules: vperson_rules(), layer_id: LAYER_VPERSON, repeat: false, kind: 2 });
    assert(v@.map_values(|l: LayerDef| l@) =~= prev.push(v@.last()@));
    let ghost prev = v@.map_values(|l: LayerDef| l@);
    v.push(LayerDef { rules: vtense_rules(), layer_id: LAYER_VTENSE, repeat: false, kind: 2 });
    assert(v@.map_values(|l: LayerDef| l@) =~= prev.push(v@.last()@));
    let ghost prev = v@.map_values(|l: LayerDef| l@);
    v.push(LayerDef { rules: vneg_rules(), layer_id: LAYER_VNEG, repeat: false, kind: 2 });
    assert(v@.map_values(|l: LayerDef| l@) =~= prev.push(v@.last()@));
    let ghost prev = v@.map_values(|l: LayerDef| l@);
    v.push(LayerDef { rules: vvoice_rules(), layer_id: LAYER_VVOICE, repeat: true, kind: 2 });
    assert(v@.map_values(|l: LayerDef| l@) =~= prev.push(v@.last()@));
    v
}

/// Possessive suffixes that begin with a vowel (their removal may expose a
/// mutated or elided stem).
pub open spec fn spec_poss_vowel_suffix(s: Seq<char>) -> bool {
    ||| s == seq!['ы']
    ||| s == seq!['і']
    ||| s == seq!['с', 'ы']
    ||| s == seq!['с', 'і']
    ||| s == seq!['ы', 'м']
    ||| s == seq!['і', 'м']
    ||| s == seq!['ы', 'ң']
    ||| s == seq!['і', 'ң']
    ||| s == seq!['ы', 'м', 'ы', 'з']
    ||| s == seq!['і', 'м', 'і', 'з']
    ||| s == seq!['ы', 'ң', 'ы', 'з']
    ||| s == seq!['і', 'ң', 'і', 'з']
}

/// Whether `s` is one of the vowel-initial possessive suffixes.
pub fn is_poss_vowel_suffix(s: &str) -> (r: bool)
    ensures
        r == spec_poss_vowel_suffix(s@),
{
    let v = chars_of(s);
    let v = v.as_slice();
    if is_lit(v, lit1('ы')) {
        return true;
    }
    if is_lit(v, lit1('і')) {
        return true;
    }
    if is_lit(v, lit2('с', 'ы')) {
        return true;
    }
    if is_lit(v, lit2('с', 'і')) {
        return true;
    }
    if is_lit(v, lit2('ы', 'м')) {
        return true;
    }
    if is_lit(v, lit2('і', 'м')) {
        return true;
    }
    if is_lit(v, lit2('ы', 'ң')) {
        return true;
    }
    if is_lit(v, lit2('і', 'ң')) {
        return true;
    }
    if is_lit(v, lit4('ы', 'м', 'ы', 'з')) {
        return true;
    }
    if is_lit(v, lit4('і', 'м', 'і', 'з')) {
        return true;
    }
    if is_lit(v, lit4('ы', 'ң', 'ы', 'з')) {
        return true;
    }
    if is_lit(v, lit4('і', 'ң', 'і', 'з')) {
        return true;
    }
    false
}

} // verus!
