//! Conversion of field text from the printer's character sets to Unicode.
use vstd::prelude::*;
use crate::text::{chars_of, push_char};

verus! {

/// The Unicode character of a byte of code page 850 in the range 0x80..=0xFF.
pub open spec fn cp850_high(b: u8) -> char {
    if b == 0x80 {
        '\u{c7}'
    } else if b == 0x81 {
        '\u{fc}'
    } else if b == 0x82 {
        '\u{e9}'
    } else if b == 0x83 {
        '\u{e2}'
    } else if b == 0x84 {
        '\u{e4}'
    } else if b == 0x85 {
        '\u{e0}'
    } else if b == 0x86 {
        '\u{e5}'
    } else if b == 0x87 {
        '\u{e7}'
    } else if b == 0x88 {
        '\u{ea}'
    } else if b == 0x89 {
        '\u{eb}'
    } else if b == 0x8a {
        '\u{e8}'
    } else if b == 0x8b {
        '\u{ef}'
    } else if b == 0x8c {
        '\u{ee}'
    } else if b == 0x8d {
        '\u{ec}'
    } else if b == 0x8e {
        '\u{c4}'
    } else if b == 0x8f {
        '\u{c5}'
    } else if b == 0x90 {
        '\u{c9}'
    } else if b == 0x91 {
        '\u{e6}'
    } else if b == 0x92 {
        '\u{c6}'
    } else if b == 0x93 {
        '\u{f4}'
    } else if b == 0x94 {
        '\u{f6}'
    } else if b == 0x95 {
        '\u{f2}'
    } else if b == 0x96 {
        '\u{fb}'
    } else if b == 0x97 {
        '\u{f9}'
    } else if b == 0x98 {
        '\u{ff}'
    } else if b == 0x99 {
        '\u{d6}'
    } else if b == 0x9a {
        '\u{dc}'
    } else if b == 0x9b {
        '\u{f8}'
    } else if b == 0x9c {
        '\u{a3}'
    } else if b == 0x9d {
        '\u{d8}'
    } else if b == 0x9e {
        '\u{d7}'
    } else if b == 0x9f {
        '\u{192}'
    } else if b == 0xa0 {
        '\u{e1}'
    } else if b == 0xa1 {
        '\u{ed}'
    } else if b == 0xa2 {
        '\u{f3}'
    } else if b == 0xa3 {
        '\u{fa}'
    } else if b == 0xa4 {
        '\u{f1}'
    } else if b == 0xa5 {
        '\u{d1}'
    } else if b == 0xa6 {
        '\u{aa}'
    } else if b == 0xa7 {
        '\u{ba}'
    } else if b == 0xa8 {
        '\u{bf}'
    } else if b == 0xa9 {
        '\u{ae}'
    } else if b == 0xaa {
        '\u{ac}'
    } else if b == 0xab {
        '\u{bd}'
    } else if b == 0xac {
        '\u{bc}'
    } else if b == 0xad {
        '\u{a1}'
    } else if b == 0xae {
        '\u{ab}'
    } else if b == 0xaf {
        '\u{bb}'
    } else if b == 0xb0 {
        '\u{2591}'
    } else if b == 0xb1 {
        '\u{2592}'
    } else if b == 0xb2 {
        '\u{2593}'
    } else if b == 0xb3 {
        '\u{2502}'
    } else if b == 0xb4 {
        '\u{2524}'
    } else if b == 0xb5 {
        '\u{c1}'
    } else if b == 0xb6 {
        '\u{c2}'
    } else if b == 0xb7 {
        '\u{c0}'
    } else if b == 0xb8 {
        '\u{a9}'
    } else if b == 0xb9 {
        '\u{2563}'
    } else if b == 0xba {
        '\u{2551}'
    } else if b == 0xbb {
        '\u{2557}'
    } else if b == 0xbc {
        '\u{255d}'
    } else if b == 0xbd {
        '\u{a2}'
    } else if b == 0xbe {
        '\u{a5}'
    } else if b == 0xbf {
        '\u{2510}'
    } else if b == 0xc0 {
        '\u{2514}'
    } else if b == 0xc1 {
        '\u{2534}'
    } else if b == 0xc2 {
        '\u{252c}'
    } else if b == 0xc3 {
        '\u{251c}'
    } else if b == 0xc4 {
        '\u{2500}'
    } else if b == 0xc5 {
        '\u{253c}'
    } else if b == 0xc6 {
        '\u{e3}'
    } else if b == 0xc7 {
        '\u{c3}'
    } else if b == 0xc8 {
        '\u{255a}'
    } else if b == 0xc9 {
        '\u{2554}'
    } else if b == 0xca {
        '\u{2569}'
    } else if b == 0xcb {
        '\u{2566}'
    } else if b == 0xcc {
        '\u{2560}'
    } else if b == 0xcd {
        '\u{2550}'
    } else if b == 0xce {
        '\u{256c}'
    } else if b == 0xcf {
        '\u{a4}'
    } else if b == 0xd0 {
        '\u{f0}'
    } else if b == 0xd1 {
        '\u{d0}'
    } else if b == 0xd2 {
        '\u{ca}'
    } else if b == 0xd3 {
        '\u{cb}'
    } else if b == 0xd4 {
        '\u{c8}'
    } else if b == 0xd5 {
        '\u{131}'
    } else if b == 0xd6 {
        '\u{cd}'
    } else if b == 0xd7 {
        '\u{ce}'
    } else if b == 0xd8 {
        '\u{cf}'
    } else if b == 0xd9 {
        '\u{2518}'
    } else if b == 0xda {
        '\u{250c}'
    } else if b == 0xdb {
        '\u{2588}'
    } else if b == 0xdc {
        '\u{2584}'
    } else if b == 0xdd {
        '\u{a6}'
    } else if b == 0xde {
        '\u{cc}'
    } else if b == 0xdf {
        '\u{2580}'
    } else if b == 0xe0 {
        '\u{d3}'
    } else if b == 0xe1 {
        '\u{df}'
    } else if b == 0xe2 {
        '\u{d4}'
    } else if b == 0xe3 {
        '\u{d2}'
    } else if b == 0xe4 {
        '\u{f5}'
    } else if b == 0xe5 {
        '\u{d5}'
    } else if b == 0xe6 {
        '\u{b5}'
    } else if b == 0xe7 {
        '\u{fe}'
    } else if b == 0xe8 {
        '\u{de}'
    } else if b == 0xe9 {
        '\u{da}'
    } else if b == 0xea {
        '\u{db}'
    } else if b == 0xeb {
        '\u{d9}'
    } else if b == 0xec {
        '\u{fd}'
    } else if b == 0xed {
        '\u{dd}'
    } else if b == 0xee {
        '\u{af}'
    } else if b == 0xef {
        '\u{b4}'
    } else if b == 0xf0 {
        '\u{ad}'
    } else if b == 0xf1 {
        '\u{b1}'
    } else if b == 0xf2 {
        '\u{2017}'
    } else if b == 0xf3 {
        '\u{be}'
    } else if b == 0xf4 {
        '\u{b6}'
    } else if b == 0xf5 {
        '\u{a7}'
    } else if b == 0xf6 {
        '\u{f7}'
    } else if b == 0xf7 {
        '\u{b8}'
    } else if b == 0xf8 {
        '\u{b0}'
    } else if b == 0xf9 {
        '\u{a8}'
    } else if b == 0xfa {
        '\u{b7}'
    } else if b == 0xfb {
        '\u{b9}'
    } else if b == 0xfc {
        '\u{b3}'
    } else if b == 0xfd {
        '\u{b2}'
    } else if b == 0xfe {
        '\u{25a0}'
    } else {
        '\u{a0}'
    }
}

/// The code page 850 byte of a character in the upper half of the code page,
/// from the standard table, if it has one.
pub open spec fn cp850_high_byte_of(c: char) -> Option<u8> {
    if c == '\u{c7}' {
        Some(0x80u8)
    } else if c == '\u{fc}' {
        Some(0x81u8)
    } else if c == '\u{e9}' {
        Some(0x82u8)
    } else if c == '\u{e2}' {
        Some(0x83u8)
    } else if c == '\u{e4}' {
        Some(0x84u8)
    } else if c == '\u{e0}' {
        Some(0x85u8)
    } else if c == '\u{e5}' {
        Some(0x86u8)
    } else if c == '\u{e7}' {
        Some(0x87u8)
    } else if c == '\u{ea}' {
        Some(0x88u8)
    } else if c == '\u{eb}' {
        Some(0x89u8)
    } else if c == '\u{e8}' {
        Some(0x8au8)
    } else if c == '\u{ef}' {
        Some(0x8bu8)
    } else if c == '\u{ee}' {
        Some(0x8cu8)
    } else if c == '\u{ec}' {
        Some(0x8du8)
    } else if c == '\u{c4}' {
        Some(0x8eu8)
    } else if c == '\u{c5}' {
        Some(0x8fu8)
    } else if c == '\u{c9}' {
        Some(0x90u8)
    } else if c == '\u{e6}' {
        Some(0x91u8)
    } else if c == '\u{c6}' {
        Some(0x92u8)
    } else if c == '\u{f4}' {
        Some(0x93u8)
    } else if c == '\u{f6}' {
        Some(0x94u8)
    } else if c == '\u{f2}' {
        Some(0x95u8)
    } else if c == '\u{fb}' {
        Some(0x96u8)
    } else if c == '\u{f9}' {
        Some(0x97u8)
    } else if c == '\u{ff}' {
        Some(0x98u8)
    } else if c == '\u{d6}' {
        Some(0x99u8)
    } else if c == '\u{dc}' {
        Some(0x9au8)
    } else if c == '\u{f8}' {
        Some(0x9bu8)
    } else if c == '\u{a3}' {
        Some(0x9cu8)
    } else if c == '\u{d8}' {
        Some(0x9du8)
    } else if c == '\u{d7}' {
        Some(0x9eu8)
    } else if c == '\u{192}' {
        Some(0x9fu8)
    } else if c == '\u{e1}' {
        Some(0xa0u8)
    } else if c == '\u{ed}' {
        Some(0xa1u8)
    } else if c == '\u{f3}' {
        Some(0xa2u8)
    } else if c == '\u{fa}' {
        Some(0xa3u8)
    } else if c == '\u{f1}' {
        Some(0xa4u8)
    } else if c == '\u{d1}' {
        Some(0xa5u8)
    } else if c == '\u{aa}' {
        Some(0xa6u8)
    } else if c == '\u{ba}' {
        Some(0xa7u8)
    } else if c == '\u{bf}' {
        Some(0xa8u8)
    } else if c == '\u{ae}' {
        Some(0xa9u8)
    } else if c == '\u{ac}' {
        Some(0xaau8)
    } else if c == '\u{bd}' {
        Some(0xabu8)
    } else if c == '\u{bc}' {
        Some(0xacu8)
    } else if c == '\u{a1}' {
        Some(0xadu8)
    } else if c == '\u{ab}' {
        Some(0xaeu8)
    } else if c == '\u{bb}' {
        Some(0xafu8)
    } else if c == '\u{2591}' {
        Some(0xb0u8)
    } else if c == '\u{2592}' {
        Some(0xb1u8)
    } else if c == '\u{2593}' {
        Some(0xb2u8)
    } else if c == '\u{2502}' {
        Some(0xb3u8)
    } else if c == '\u{2524}' {
        Some(0xb4u8)
    } else if c == '\u{c1}' {
        Some(0xb5u8)
    } else if c == '\u{c2}' {
        Some(0xb6u8)
    } else if c == '\u{c0}' {
        Some(0xb7u8)
    } else if c == '\u{a9}' {
        Some(0xb8u8)
    } else if c == '\u{2563}' {
        Some(0xb9u8)
    } else if c == '\u{2551}' {
        Some(0xbau8)
    } else if c == '\u{2557}' {
        Some(0xbbu8)
    } else if c == '\u{255d}' {
        Some(0xbcu8)
    } else if c == '\u{a2}' {
        Some(0xbdu8)
    } else if c == '\u{a5}' {
        Some(0xbeu8)
    } else if c == '\u{2510}' {
        Some(0xbfu8)
    } else if c == '\u{2514}' {
        Some(0xc0u8)
    } else if c == '\u{2534}' {
        Some(0xc1u8)
    } else if c == '\u{252c}' {
        Some(0xc2u8)
    } else if c == '\u{251c}' {
        Some(0xc3u8)
    } else if c == '\u{2500}' {
        Some(0xc4u8)
    } else if c == '\u{253c}' {
        Some(0xc5u8)
    } else if c == '\u{e3}' {
        Some(0xc6u8)
    } else if c == '\u{c3}' {
        Some(0xc7u8)
    } else if c == '\u{255a}' {
        Some(0xc8u8)
    } else if c == '\u{2554}' {
        Some(0xc9u8)
    } else if c == '\u{2569}' {
        Some(0xcau8)
    } else if c == '\u{2566}' {
        Some(0xcbu8)
    } else if c == '\u{2560}' {
        Some(0xccu8)
    } else if c == '\u{2550}' {
        Some(0xcdu8)
    } else if c == '\u{256c}' {
        Some(0xceu8)
    } else if c == '\u{a4}' {
        Some(0xcfu8)
    } else if c == '\u{f0}' {
        Some(0xd0u8)
    } else if c == '\u{d0}' {
        Some(0xd1u8)
    } else if c == '\u{ca}' {
        Some(0xd2u8)
    } else if c == '\u{cb}' {
        Some(0xd3u8)
    } else if c == '\u{c8}' {
        Some(0xd4u8)
    } else if c == '\u{131}' {
        Some(0xd5u8)
    } else if c == '\u{cd}' {
        Some(0xd6u8)
    } else if c == '\u{ce}' {
        Some(0xd7u8)
    } else if c == '\u{cf}' {
        Some(0xd8u8)
    } else if c == '\u{2518}' {
        Some(0xd9u8)
    } else if c == '\u{250c}' {
        Some(0xdau8)
    } else if c == '\u{2588}' {
        Some(0xdbu8)
    } else if c == '\u{2584}' {
        Some(0xdcu8)
    } else if c == '\u{a6}' {
        Some(0xddu8)
    } else if c == '\u{cc}' {
        Some(0xdeu8)
    } else if c == '\u{2580}' {
        Some(0xdfu8)
    } else if c == '\u{d3}' {
        Some(0xe0u8)
    } else if c == '\u{df}' {
        Some(0xe1u8)
    } else if c == '\u{d4}' {
        Some(0xe2u8)
    } else if c == '\u{d2}' {
        Some(0xe3u8)
    } else if c == '\u{f5}' {
        Some(0xe4u8)
    } else if c == '\u{d5}' {
        Some(0xe5u8)
    } else if c == '\u{b5}' {
        Some(0xe6u8)
    } else if c == '\u{fe}' {
        Some(0xe7u8)
    } else if c == '\u{de}' {
        Some(0xe8u8)
    } else if c == '\u{da}' {
        Some(0xe9u8)
    } else if c == '\u{db}' {
        Some(0xeau8)
    } else if c == '\u{d9}' {
        Some(0xebu8)
    } else if c == '\u{fd}' {
        Some(0xecu8)
    } else if c == '\u{dd}' {
        Some(0xedu8)
    } else if c == '\u{af}' {
        Some(0xeeu8)
    } else if c == '\u{b4}' {
        Some(0xefu8)
    } else if c == '\u{ad}' {
        Some(0xf0u8)
    } else if c == '\u{b1}' {
        Some(0xf1u8)
    } else if c == '\u{2017}' {
        Some(0xf2u8)
    } else if c == '\u{be}' {
        Some(0xf3u8)
    } else if c == '\u{b6}' {
        Some(0xf4u8)
    } else if c == '\u{a7}' {
        Some(0xf5u8)
    } else if c == '\u{f7}' {
        Some(0xf6u8)
    } else if c == '\u{b8}' {
        Some(0xf7u8)
    } else if c == '\u{b0}' {
        Some(0xf8u8)
    } else if c == '\u{a8}' {
        Some(0xf9u8)
    } else if c == '\u{b7}' {
        Some(0xfau8)
    } else if c == '\u{b9}' {
        Some(0xfbu8)
    } else if c == '\u{b3}' {
        Some(0xfcu8)
    } else if c == '\u{b2}' {
        Some(0xfdu8)
    } else if c == '\u{25a0}' {
        Some(0xfeu8)
    } else if c == '\u{a0}' {
        Some(0xffu8)
    } else {
        None
    }
}

proof fn lemma_cp850_read_back_128(b: u8)
    requires
        128 <= b < 144,
    ensures
        cp850_high_byte_of(cp850_high(b)) == Some(b),
{
    if b == 128 {
    } else if b == 129 {
    } else if b == 130 {
    } else if b == 131 {
    } else if b == 132 {
    } else if b == 133 {
    } else if b == 134 {
    } else if b == 135 {
    } else if b == 136 {
    } else if b == 137 {
    } else if b == 138 {
    } else if b == 139 {
    } else if b == 140 {
    } else if b == 141 {
    } else if b == 142 {
    } else if b == 143 {
    }
}

proof fn lemma_cp850_read_back_144(b: u8)
    requires
        144 <= b < 160,
    ensures
        cp850_high_byte_of(cp850_high(b)) == Some(b),
{
    if b == 144 {
    } else if b == 145 {
    } else if b == 146 {
    } else if b == 147 {
    } else if b == 148 {
    } else if b == 149 {
    } else if b == 150 {
    } else if b == 151 {
    } else if b == 152 {
    } else if b == 153 {
    } else if b == 154 {
    } else if b == 155 {
    } else if b == 156 {
    } else if b == 157 {
    } else if b == 158 {
    } else if b == 159 {
    }
}

proof fn lemma_cp850_read_back_160(b: u8)
    requires
        160 <= b < 176,
    ensures
        cp850_high_byte_of(cp850_high(b)) == Some(b),
{
    if b == 160 {
    } else if b == 161 {
    } else if b == 162 {
    } else if b == 163 {
    } else if b == 164 {
    } else if b == 165 {
    } else if b == 166 {
    } else if b == 167 {
    } else if b == 168 {
    } else if b == 169 {
    } else if b == 170 {
    } else if b == 171 {
    } else if b == 172 {
    } else if b == 173 {
    } else if b == 174 {
    } else if b == 175 {
    }
}

proof fn lemma_cp850_read_back_176(b: u8)
    requires
        176 <= b < 192,
    ensures
        cp850_high_byte_of(cp850_high(b)) == Some(b),
{
    if b == 176 {
    } else if b == 177 {
    } else if b == 178 {
    } else if b == 179 {
    } else if b == 180 {
    } else if b == 181 {
    } else if b == 182 {
    } else if b == 183 {
    } else if b == 184 {
    } else if b == 185 {
    } else if b == 186 {
    } else if b == 187 {
    } else if b == 188 {
    } else if b == 189 {
    } else if b == 190 {
    } else if b == 191 {
    }
}

proof fn lemma_cp850_read_back_192(b: u8)
    requires
        192 <= b < 208,
    ensures
        cp850_high_byte_of(cp850_high(b)) == Some(b),
{
    if b == 192 {
    } else if b == 193 {
    } else if b == 194 {
    } else if b == 195 {
    } else if b == 196 {
    } else if b == 197 {
    } else if b == 198 {
    } else if b == 199 {
    } else if b == 200 {
    } else if b == 201 {
    } else if b == 202 {
    } else if b == 203 {
    } else if b == 204 {
    } else if b == 205 {
    } else if b == 206 {
    } else if b == 207 {
    }
}

proof fn lemma_cp850_read_back_208(b: u8)
    requires
        208 <= b < 224,
    ensures
        cp850_high_byte_of(cp850_high(b)) == Some(b),
{
    if b == 208 {
    } else if b == 209 {
    } else if b == 210 {
    } else if b == 211 {
    } else if b == 212 {
    } else if b == 213 {
    } else if b == 214 {
    } else if b == 215 {
    } else if b == 216 {
    } else if b == 217 {
    } else if b == 218 {
    } else if b == 219 {
    } else if b == 220 {
    } else if b == 221 {
    } else if b == 222 {
    } else if b == 223 {
    }
}

proof fn lemma_cp850_read_back_224(b: u8)
    requires
        224 <= b < 240,
    ensures
        cp850_high_byte_of(cp850_high(b)) == Some(b),
{
    if b == 224 {
    } else if b == 225 {
    } else if b == 226 {
    } else if b == 227 {
    } else if b == 228 {
    } else if b == 229 {
    } else if b == 230 {
    } else if b == 231 {
    } else if b == 232 {
    } else if b == 233 {
    } else if b == 234 {
    } else if b == 235 {
    } else if b == 236 {
    } else if b == 237 {
    } else if b == 238 {
    } else if b == 239 {
    }
}

proof fn lemma_cp850_read_back_240(b: u8)
    requires
        240 <= b < 256,
    ensures
        cp850_high_byte_of(cp850_high(b)) == Some(b),
{
    if b == 240 {
    } else if b == 241 {
    } else if b == 242 {
    } else if b == 243 {
    } else if b == 244 {
    } else if b == 245 {
    } else if b == 246 {
    } else if b == 247 {
    } else if b == 248 {
    } else if b == 249 {
    } else if b == 250 {
    } else if b == 251 {
    } else if b == 252 {
    } else if b == 253 {
    } else if b == 254 {
    } else if b == 255 {
    }
}

/// Every byte of the upper half of code page 850 becomes the character the
/// standard table gives it, which reads back as that byte: so distinct bytes
/// become distinct characters, and none of them is ASCII.
pub proof fn lemma_cp850_read_back(b: u8, b2: u8)
    requires
        0x80 <= b,
        0x80 <= b2,
    ensures
        cp850_high_byte_of(cp850_high(b)) == Some(b),
        b != b2 ==> cp850_high(b) != cp850_high(b2),
        cp850_high(b) as int >= 0x80,
{
    lemma_cp850_read_back_one(b);
    lemma_cp850_read_back_one(b2);
}

proof fn lemma_cp850_read_back_one(b: u8)
    requires
        0x80 <= b,
    ensures
        cp850_high_byte_of(cp850_high(b)) == Some(b),
        cp850_high(b) as int >= 0x80,
{
    if b < 144 {
        lemma_cp850_read_back_128(b);
    } else if b < 160 {
        lemma_cp850_read_back_144(b);
    } else if b < 176 {
        lemma_cp850_read_back_160(b);
    } else if b < 192 {
        lemma_cp850_read_back_176(b);
    } else if b < 208 {
        lemma_cp850_read_back_192(b);
    } else if b < 224 {
        lemma_cp850_read_back_208(b);
    } else if b < 240 {
        lemma_cp850_read_back_224(b);
    } else if b < 256 {
        lemma_cp850_read_back_240(b);
    }
}

proof fn lemma_charset_table_0()
    ensures
        charset_subst(0, '#') == seq!['#'],
        charset_subst(0, '0') == seq!['0'],
        charset_subst(0, '@') == seq!['@'],
        charset_subst(0, '[') == seq!['['],
        charset_subst(0, '\\') == seq!['\u{a2}'],
        charset_subst(0, ']') == seq![']'],
        charset_subst(0, '^') == seq!['^'],
        charset_subst(0, '`') == seq!['`'],
        charset_subst(0, '{') == seq!['{'],
        charset_subst(0, '|') == seq!['|'],
        charset_subst(0, '}') == seq!['}'],
{
}

proof fn lemma_charset_table_1()
    ensures
        charset_subst(1, '#') == seq!['#'],
        charset_subst(1, '0') == seq!['0'],
        charset_subst(1, '@') == seq!['@'],
        charset_subst(1, '[') == seq!['\u{2153}'],
        charset_subst(1, '\\') == seq!['\u{a2}'],
        charset_subst(1, ']') == seq!['\u{2154}'],
        charset_subst(1, '^') == seq!['^'],
        charset_subst(1, '`') == seq!['`'],
        charset_subst(1, '{') == seq!['\u{bc}'],
        charset_subst(1, '|') == seq!['\u{bd}'],
        charset_subst(1, '}') == seq!['\u{be}'],
{
}

proof fn lemma_charset_table_2()
    ensures
        charset_subst(2, '#') == seq!['\u{a3}'],
        charset_subst(2, '0') == seq!['0'],
        charset_subst(2, '@') == seq!['@'],
        charset_subst(2, '[') == seq!['['],
        charset_subst(2, '\\') == seq!['\u{a2}'],
        charset_subst(2, ']') == seq![']'],
        charset_subst(2, '^') == seq!['^'],
        charset_subst(2, '`') == seq!['`'],
        charset_subst(2, '{') == seq!['{'],
        charset_subst(2, '|') == seq!['|'],
        charset_subst(2, '}') == seq!['}'],
{
}

proof fn lemma_charset_table_3()
    ensures
        charset_subst(3, '#') == seq!['\u{192}'],
        charset_subst(3, '0') == seq!['0'],
        charset_subst(3, '@') == seq!['\u{a7}'],
        charset_subst(3, '[') == seq!['['],
        charset_subst(3, '\\') == seq!['I', 'J'],
        charset_subst(3, ']') == seq![']'],
        charset_subst(3, '^') == seq!['^'],
        charset_subst(3, '`') == seq!['`'],
        charset_subst(3, '{') == seq!['{'],
        charset_subst(3, '|') == seq!['i', 'j'],
        charset_subst(3, '}') == seq!['}'],
{
}

proof fn lemma_charset_table_4()
    ensures
        charset_subst(4, '#') == seq!['#'],
        charset_subst(4, '0') == seq!['0'],
        charset_subst(4, '@') == seq!['@'],
        charset_subst(4, '[') == seq!['\u{c6}'],
        charset_subst(4, '\\') == seq!['\u{d8}'],
        charset_subst(4, ']') == seq!['\u{c5}'],
        charset_subst(4, '^') == seq!['^'],
        charset_subst(4, '`') == seq!['`'],
        charset_subst(4, '{') == seq!['\u{e6}'],
        charset_subst(4, '|') == seq!['\u{f8}'],
        charset_subst(4, '}') == seq!['\u{e5}'],
{
}

proof fn lemma_charset_table_5()
    ensures
        charset_subst(5, '#') == seq!['\u{dc}'],
        charset_subst(5, '0') == seq!['0'],
        charset_subst(5, '@') == seq!['\u{c9}'],
        charset_subst(5, '[') == seq!['\u{c4}'],
        charset_subst(5, '\\') == seq!['\u{d6}'],
        charset_subst(5, ']') == seq!['\u{c5}'],
        charset_subst(5, '^') == seq!['\u{dc}'],
        charset_subst(5, '`') == seq!['\u{e9}'],
        charset_subst(5, '{') == seq!['\u{e4}'],
        charset_subst(5, '|') == seq!['\u{f6}'],
        charset_subst(5, '}') == seq!['\u{e5}'],
{
}

proof fn lemma_charset_table_6()
    ensures
        charset_subst(6, '#') == seq!['#'],
        charset_subst(6, '0') == seq!['0'],
        charset_subst(6, '@') == seq!['\u{a7}'],
        charset_subst(6, '[') == seq!['\u{c4}'],
        charset_subst(6, '\\') == seq!['\u{d6}'],
        charset_subst(6, ']') == seq!['\u{dc}'],
        charset_subst(6, '^') == seq!['^'],
        charset_subst(6, '`') == seq!['`'],
        charset_subst(6, '{') == seq!['\u{e4}'],
        charset_subst(6, '|') == seq!['\u{f6}'],
        charset_subst(6, '}') == seq!['\u{fc}'],
{
}

proof fn lemma_charset_table_7()
    ensures
        charset_subst(7, '#') == seq!['\u{a3}'],
        charset_subst(7, '0') == seq!['0'],
        charset_subst(7, '@') == seq!['\u{e0}'],
        charset_subst(7, '[') == seq!['['],
        charset_subst(7, '\\') == seq!['\u{e7}'],
        charset_subst(7, ']') == seq![']'],
        charset_subst(7, '^') == seq!['^'],
        charset_subst(7, '`') == seq!['`'],
        charset_subst(7, '{') == seq!['\u{e9}'],
        charset_subst(7, '|') == seq!['|'],
        charset_subst(7, '}') == seq!['\u{f9}'],
{
}

proof fn lemma_charset_table_8()
    ensures
        charset_subst(8, '#') == seq!['#'],
        charset_subst(8, '0') == seq!['0'],
        charset_subst(8, '@') == seq!['\u{e0}'],
        charset_subst(8, '[') == seq!['\u{e2}'],
        charset_subst(8, '\\') == seq!['\u{e7}'],
        charset_subst(8, ']') == seq!['\u{ea}'],
        charset_subst(8, '^') == seq!['\u{ee}'],
        charset_subst(8, '`') == seq!['\u{f4}'],
        charset_subst(8, '{') == seq!['\u{e9}'],
        charset_subst(8, '|') == seq!['\u{f9}'],
        charset_subst(8, '}') == seq!['\u{e8}'],
{
}

proof fn lemma_charset_table_9()
    ensures
        charset_subst(9, '#') == seq!['\u{a3}'],
        charset_subst(9, '0') == seq!['0'],
        charset_subst(9, '@') == seq!['\u{a7}'],
        charset_subst(9, '[') == seq!['['],
        charset_subst(9, '\\') == seq!['\u{e7}'],
        charset_subst(9, ']') == seq!['\u{e9}'],
        charset_subst(9, '^') == seq!['^'],
        charset_subst(9, '`') == seq!['\u{f9}'],
        charset_subst(9, '{') == seq!['\u{e0}'],
        charset_subst(9, '|') == seq!['\u{f2}'],
        charset_subst(9, '}') == seq!['\u{e8}'],
{
}

proof fn lemma_charset_table_10()
    ensures
        charset_subst(10, '#') == seq!['#'],
        charset_subst(10, '0') == seq!['0'],
        charset_subst(10, '@') == seq!['\u{a7}'],
        charset_subst(10, '[') == seq!['\u{a1}'],
        charset_subst(10, '\\') == seq!['\u{d1}'],
        charset_subst(10, ']') == seq!['\u{bf}'],
        charset_subst(10, '^') == seq!['^'],
        charset_subst(10, '`') == seq!['`'],
        charset_subst(10, '{') == seq!['{'],
        charset_subst(10, '|') == seq!['\u{f1}'],
        charset_subst(10, '}') == seq!['\u{e7}'],
{
}

proof fn lemma_charset_table_11()
    ensures
        charset_subst(11, '#') == seq!['\u{a3}'],
        charset_subst(11, '0') == seq!['0'],
        charset_subst(11, '@') == seq!['\u{c9}'],
        charset_subst(11, '[') == seq!['\u{c4}'],
        charset_subst(11, '\\') == seq!['\u{d6}'],
        charset_subst(11, ']') == seq!['\u{dc}'],
        charset_subst(11, '^') == seq!['^'],
        charset_subst(11, '`') == seq!['\u{e4}'],
        charset_subst(11, '{') == seq!['\u{eb}'],
        charset_subst(11, '|') == seq!['\u{ef}'],
        charset_subst(11, '}') == seq!['\u{f6}'],
{
}

proof fn lemma_charset_table_12()
    ensures
        charset_subst(12, '#') == seq!['#'],
        charset_subst(12, '0') == seq!['0'],
        charset_subst(12, '@') == seq!['@'],
        charset_subst(12, '[') == seq!['['],
        charset_subst(12, '\\') == seq!['\u{a5}'],
        charset_subst(12, ']') == seq![']'],
        charset_subst(12, '^') == seq!['^'],
        charset_subst(12, '`') == seq!['`'],
        charset_subst(12, '{') == seq!['{'],
        charset_subst(12, '|') == seq!['|'],
        charset_subst(12, '}') == seq!['}'],
{
}

/// The national character sets replace the eleven characters `#`, `0`, `@`,
/// `[`, `\`, `]`, `^`, `` ` ``, `{`, `|` and `}` as the printer's table of
/// character sets 0 to 12 has them (set 1, for one, prints a third, a cent
/// sign and two thirds for `[`, `\` and `]`; set 3 prints `IJ` for `\`).
pub proof fn lemma_charset_table()
    ensures
        charset_subst(0, '#') == seq!['#'],
        charset_subst(0, '0') == seq!['0'],
        charset_subst(0, '@') == seq!['@'],
        charset_subst(0, '[') == seq!['['],
        charset_subst(0, '\\') == seq!['\u{a2}'],
        charset_subst(0, ']') == seq![']'],
        charset_subst(0, '^') == seq!['^'],
        charset_subst(0, '`') == seq!['`'],
        charset_subst(0, '{') == seq!['{'],
        charset_subst(0, '|') == seq!['|'],
        charset_subst(0, '}') == seq!['}'],
        charset_subst(1, '#') == seq!['#'],
        charset_subst(1, '0') == seq!['0'],
        charset_subst(1, '@') == seq!['@'],
        charset_subst(1, '[') == seq!['\u{2153}'],
        charset_subst(1, '\\') == seq!['\u{a2}'],
        charset_subst(1, ']') == seq!['\u{2154}'],
        charset_subst(1, '^') == seq!['^'],
        charset_subst(1, '`') == seq!['`'],
        charset_subst(1, '{') == seq!['\u{bc}'],
        charset_subst(1, '|') == seq!['\u{bd}'],
        charset_subst(1, '}') == seq!['\u{be}'],
        charset_subst(2, '#') == seq!['\u{a3}'],
        charset_subst(2, '0') == seq!['0'],
        charset_subst(2, '@') == seq!['@'],
        charset_subst(2, '[') == seq!['['],
        charset_subst(2, '\\') == seq!['\u{a2}'],
        charset_subst(2, ']') == seq![']'],
        charset_subst(2, '^') == seq!['^'],
        charset_subst(2, '`') == seq!['`'],
        charset_subst(2, '{') == seq!['{'],
        charset_subst(2, '|') == seq!['|'],
        charset_subst(2, '}') == seq!['}'],
        charset_subst(3, '#') == seq!['\u{192}'],
        charset_subst(3, '0') == seq!['0'],
        charset_subst(3, '@') == seq!['\u{a7}'],
        charset_subst(3, '[') == seq!['['],
        charset_subst(3, '\\') == seq!['I', 'J'],
        charset_subst(3, ']') == seq![']'],
        charset_subst(3, '^') == seq!['^'],
        charset_subst(3, '`') == seq!['`'],
        charset_subst(3, '{') == seq!['{'],
        charset_subst(3, '|') == seq!['i', 'j'],
        charset_subst(3, '}') == seq!['}'],
        charset_subst(4, '#') == seq!['#'],
        charset_subst(4, '0') == seq!['0'],
        charset_subst(4, '@') == seq!['@'],
        charset_subst(4, '[') == seq!['\u{c6}'],
        charset_subst(4, '\\') == seq!['\u{d8}'],
        charset_subst(4, ']') == seq!['\u{c5}'],
        charset_subst(4, '^') == seq!['^'],
        charset_subst(4, '`') == seq!['`'],
        charset_subst(4, '{') == seq!['\u{e6}'],
        charset_subst(4, '|') == seq!['\u{f8}'],
        charset_subst(4, '}') == seq!['\u{e5}'],
        charset_subst(5, '#') == seq!['\u{dc}'],
        charset_subst(5, '0') == seq!['0'],
        charset_subst(5, '@') == seq!['\u{c9}'],
        charset_subst(5, '[') == seq!['\u{c4}'],
        charset_subst(5, '\\') == seq!['\u{d6}'],
        charset_subst(5, ']') == seq!['\u{c5}'],
        charset_subst(5, '^') == seq!['\u{dc}'],
        charset_subst(5, '`') == seq!['\u{e9}'],
        charset_subst(5, '{') == seq!['\u{e4}'],
        charset_subst(5, '|') == seq!['\u{f6}'],
        charset_subst(5, '}') == seq!['\u{e5}'],
        charset_subst(6, '#') == seq!['#'],
        charset_subst(6, '0') == seq!['0'],
        charset_subst(6, '@') == seq!['\u{a7}'],
        charset_subst(6, '[') == seq!['\u{c4}'],
        charset_subst(6, '\\') == seq!['\u{d6}'],
        charset_subst(6, ']') == seq!['\u{dc}'],
        charset_subst(6, '^') == seq!['^'],
        charset_subst(6, '`') == seq!['`'],
        charset_subst(6, '{') == seq!['\u{e4}'],
        charset_subst(6, '|') == seq!['\u{f6}'],
        charset_subst(6, '}') == seq!['\u{fc}'],
        charset_subst(7, '#') == seq!['\u{a3}'],
        charset_subst(7, '0') == seq!['0'],
        charset_subst(7, '@') == seq!['\u{e0}'],
        charset_subst(7, '[') == seq!['['],
        charset_subst(7, '\\') == seq!['\u{e7}'],
        charset_subst(7, ']') == seq![']'],
        charset_subst(7, '^') == seq!['^'],
        charset_subst(7, '`') == seq!['`'],
        charset_subst(7, '{') == seq!['\u{e9}'],
        charset_subst(7, '|') == seq!['|'],
        charset_subst(7, '}') == seq!['\u{f9}'],
        charset_subst(8, '#') == seq!['#'],
        charset_subst(8, '0') == seq!['0'],
        charset_subst(8, '@') == seq!['\u{e0}'],
        charset_subst(8, '[') == seq!['\u{e2}'],
        charset_subst(8, '\\') == seq!['\u{e7}'],
        charset_subst(8, ']') == seq!['\u{ea}'],
        charset_subst(8, '^') == seq!['\u{ee}'],
        charset_subst(8, '`') == seq!['\u{f4}'],
        charset_subst(8, '{') == seq!['\u{e9}'],
        charset_subst(8, '|') == seq!['\u{f9}'],
        charset_subst(8, '}') == seq!['\u{e8}'],
        charset_subst(9, '#') == seq!['\u{a3}'],
        charset_subst(9, '0') == seq!['0'],
        charset_subst(9, '@') == seq!['\u{a7}'],
        charset_subst(9, '[') == seq!['['],
        charset_subst(9, '\\') == seq!['\u{e7}'],
        charset_subst(9, ']') == seq!['\u{e9}'],
        charset_subst(9, '^') == seq!['^'],
        charset_subst(9, '`') == seq!['\u{f9}'],
        charset_subst(9, '{') == seq!['\u{e0}'],
        charset_subst(9, '|') == seq!['\u{f2}'],
        charset_subst(9, '}') == seq!['\u{e8}'],
        charset_subst(10, '#') == seq!['#'],
        charset_subst(10, '0') == seq!['0'],
        charset_subst(10, '@') == seq!['\u{a7}'],
        charset_subst(10, '[') == seq!['\u{a1}'],
        charset_subst(10, '\\') == seq!['\u{d1}'],
        charset_subst(10, ']') == seq!['\u{bf}'],
        charset_subst(10, '^') == seq!['^'],
        charset_subst(10, '`') == seq!['`'],
        charset_subst(10, '{') == seq!['{'],
        charset_subst(10, '|') == seq!['\u{f1}'],
        charset_subst(10, '}') == seq!['\u{e7}'],
        charset_subst(11, '#') == seq!['\u{a3}'],
        charset_subst(11, '0') == seq!['0'],
        charset_subst(11, '@') == seq!['\u{c9}'],
        charset_subst(11, '[') == seq!['\u{c4}'],
        charset_subst(11, '\\') == seq!['\u{d6}'],
        charset_subst(11, ']') == seq!['\u{dc}'],
        charset_subst(11, '^') == seq!['^'],
        charset_subst(11, '`') == seq!['\u{e4}'],
        charset_subst(11, '{') == seq!['\u{eb}'],
        charset_subst(11, '|') == seq!['\u{ef}'],
        charset_subst(11, '}') == seq!['\u{f6}'],
        charset_subst(12, '#') == seq!['#'],
        charset_subst(12, '0') == seq!['0'],
        charset_subst(12, '@') == seq!['@'],
        charset_subst(12, '[') == seq!['['],
        charset_subst(12, '\\') == seq!['\u{a5}'],
        charset_subst(12, ']') == seq![']'],
        charset_subst(12, '^') == seq!['^'],
        charset_subst(12, '`') == seq!['`'],
        charset_subst(12, '{') == seq!['{'],
        charset_subst(12, '|') == seq!['|'],
        charset_subst(12, '}') == seq!['}'],
{
    lemma_charset_table_0();
    lemma_charset_table_1();
    lemma_charset_table_2();
    lemma_charset_table_3();
    lemma_charset_table_4();
    lemma_charset_table_5();
    lemma_charset_table_6();
    lemma_charset_table_7();
    lemma_charset_table_8();
    lemma_charset_table_9();
    lemma_charset_table_10();
    lemma_charset_table_11();
    lemma_charset_table_12();
}

/// A text character read as a code page 850 byte: ASCII stays, other characters are
/// taken by the low byte of their code and mapped through code page 850.
pub open spec fn cp850_of(c: char) -> char {
    if (c as u32) < 128 {
        c
    } else {
        cp850_byte(((c as u32) % 256) as u8)
    }
}

/// The Unicode character of a code page 850 byte.
pub open spec fn cp850_byte(b: u8) -> char {
    if b < 0x80 {
        b as char
    } else {
        cp850_high(b)
    }
}

/// The Unicode character of a code page 850 byte.
pub fn cp850_char(b: u8) -> (c: char)
    ensures
        c == cp850_byte(b),
{
    if b == 0x80 {
        '\u{c7}'
    } else if b == 0x81 {
        '\u{fc}'
    } else if b == 0x82 {
        '\u{e9}'
    } else if b == 0x83 {
        '\u{e2}'
    } else if b == 0x84 {
        '\u{e4}'
    } else if b == 0x85 {
        '\u{e0}'
    } else if b == 0x86 {
        '\u{e5}'
    } else if b == 0x87 {
        '\u{e7}'
    } else if b == 0x88 {
        '\u{ea}'
    } else if b == 0x89 {
        '\u{eb}'
    } else if b == 0x8a {
        '\u{e8}'
    } else if b == 0x8b {
        '\u{ef}'
    } else if b == 0x8c {
        '\u{ee}'
    } else if b == 0x8d {
        '\u{ec}'
    } else if b == 0x8e {
        '\u{c4}'
    } else if b == 0x8f {
        '\u{c5}'
    } else if b == 0x90 {
        '\u{c9}'
    } else if b == 0x91 {
        '\u{e6}'
    } else if b == 0x92 {
        '\u{c6}'
    } else if b == 0x93 {
        '\u{f4}'
    } else if b == 0x94 {
        '\u{f6}'
    } else if b == 0x95 {
        '\u{f2}'
    } else if b == 0x96 {
        '\u{fb}'
    } else if b == 0x97 {
        '\u{f9}'
    } else if b == 0x98 {
        '\u{ff}'
    } else if b == 0x99 {
        '\u{d6}'
    } else if b == 0x9a {
        '\u{dc}'
    } else if b == 0x9b {
        '\u{f8}'
    } else if b == 0x9c {
        '\u{a3}'
    } else if b == 0x9d {
        '\u{d8}'
    } else if b == 0x9e {
        '\u{d7}'
    } else if b == 0x9f {
        '\u{192}'
    } else if b == 0xa0 {
        '\u{e1}'
    } else if b == 0xa1 {
        '\u{ed}'
    } else if b == 0xa2 {
        '\u{f3}'
    } else if b == 0xa3 {
        '\u{fa}'
    } else if b == 0xa4 {
        '\u{f1}'
    } else if b == 0xa5 {
        '\u{d1}'
    } else if b == 0xa6 {
        '\u{aa}'
    } else if b == 0xa7 {
        '\u{ba}'
    } else if b == 0xa8 {
        '\u{bf}'
    } else if b == 0xa9 {
        '\u{ae}'
    } else if b == 0xaa {
        '\u{ac}'
    } else if b == 0xab {
        '\u{bd}'
    } else if b == 0xac {
        '\u{bc}'
    } else if b == 0xad {
        '\u{a1}'
    } else if b == 0xae {
        '\u{ab}'
    } else if b == 0xaf {
        '\u{bb}'
    } else if b == 0xb0 {
        '\u{2591}'
    } else if b == 0xb1 {
        '\u{2592}'
    } else if b == 0xb2 {
        '\u{2593}'
    } else if b == 0xb3 {
        '\u{2502}'
    } else if b == 0xb4 {
        '\u{2524}'
    } else if b == 0xb5 {
        '\u{c1}'
    } else if b == 0xb6 {
        '\u{c2}'
    } else if b == 0xb7 {
        '\u{c0}'
    } else if b == 0xb8 {
        '\u{a9}'
    } else if b == 0xb9 {
        '\u{2563}'
    } else if b == 0xba {
        '\u{2551}'
    } else if b == 0xbb {
        '\u{2557}'
    } else if b == 0xbc {
        '\u{255d}'
    } else if b == 0xbd {
        '\u{a2}'
    } else if b == 0xbe {
        '\u{a5}'
    } else if b == 0xbf {
        '\u{2510}'
    } else if b == 0xc0 {
        '\u{2514}'
    } else if b == 0xc1 {
        '\u{2534}'
    } else if b == 0xc2 {
        '\u{252c}'
    } else if b == 0xc3 {
        '\u{251c}'
    } else if b == 0xc4 {
        '\u{2500}'
    } else if b == 0xc5 {
        '\u{253c}'
    } else if b == 0xc6 {
        '\u{e3}'
    } else if b == 0xc7 {
        '\u{c3}'
    } else if b == 0xc8 {
        '\u{255a}'
    } else if b == 0xc9 {
        '\u{2554}'
    } else if b == 0xca {
        '\u{2569}'
    } else if b == 0xcb {
        '\u{2566}'
    } else if b == 0xcc {
        '\u{2560}'
    } else if b == 0xcd {
        '\u{2550}'
    } else if b == 0xce {
        '\u{256c}'
    } else if b == 0xcf {
        '\u{a4}'
    } else if b == 0xd0 {
        '\u{f0}'
    } else if b == 0xd1 {
        '\u{d0}'
    } else if b == 0xd2 {
        '\u{ca}'
    } else if b == 0xd3 {
        '\u{cb}'
    } else if b == 0xd4 {
        '\u{c8}'
    } else if b == 0xd5 {
        '\u{131}'
    } else if b == 0xd6 {
        '\u{cd}'
    } else if b == 0xd7 {
        '\u{ce}'
    } else if b == 0xd8 {
        '\u{cf}'
    } else if b == 0xd9 {
        '\u{2518}'
    } else if b == 0xda {
        '\u{250c}'
    } else if b == 0xdb {
        '\u{2588}'
    } else if b == 0xdc {
        '\u{2584}'
    } else if b == 0xdd {
        '\u{a6}'
    } else if b == 0xde {
        '\u{cc}'
    } else if b == 0xdf {
        '\u{2580}'
    } else if b == 0xe0 {
        '\u{d3}'
    } else if b == 0xe1 {
        '\u{df}'
    } else if b == 0xe2 {
        '\u{d4}'
    } else if b == 0xe3 {
        '\u{d2}'
    } else if b == 0xe4 {
        '\u{f5}'
    } else if b == 0xe5 {
        '\u{d5}'
    } else if b == 0xe6 {
        '\u{b5}'
    } else if b == 0xe7 {
        '\u{fe}'
    } else if b == 0xe8 {
        '\u{de}'
    } else if b == 0xe9 {
        '\u{da}'
    } else if b == 0xea {
        '\u{db}'
    } else if b == 0xeb {
        '\u{d9}'
    } else if b == 0xec {
        '\u{fd}'
    } else if b == 0xed {
        '\u{dd}'
    } else if b == 0xee {
        '\u{af}'
    } else if b == 0xef {
        '\u{b4}'
    } else if b == 0xf0 {
        '\u{ad}'
    } else if b == 0xf1 {
        '\u{b1}'
    } else if b == 0xf2 {
        '\u{2017}'
    } else if b == 0xf3 {
        '\u{be}'
    } else if b == 0xf4 {
        '\u{b6}'
    } else if b == 0xf5 {
        '\u{a7}'
    } else if b == 0xf6 {
        '\u{f7}'
    } else if b == 0xf7 {
        '\u{b8}'
    } else if b == 0xf8 {
        '\u{b0}'
    } else if b == 0xf9 {
        '\u{a8}'
    } else if b == 0xfa {
        '\u{b7}'
    } else if b == 0xfb {
        '\u{b9}'
    } else if b == 0xfc {
        '\u{b3}'
    } else if b == 0xfd {
        '\u{b2}'
    } else if b == 0xfe {
        '\u{25a0}'
    } else if b == 0xff {
        '\u{a0}'
    } else {
        b as char
    }
}

/// What character set `charset` (0 to 12) prints in place of the character `c`
/// of the reference set 13; other characters print as themselves.
pub open spec fn charset_subst(charset: int, c: char) -> Seq<char> {
    if c == '#' {
        if charset == 0 {
            seq!['#']
        } else if charset == 1 {
            seq!['#']
        } else if charset == 2 {
            seq!['\u{a3}']
        } else if charset == 3 {
            seq!['\u{192}']
        } else if charset == 4 {
            seq!['#']
        } else if charset == 5 {
            seq!['\u{dc}']
        } else if charset == 6 {
            seq!['#']
        } else if charset == 7 {
            seq!['\u{a3}']
        } else if charset == 8 {
            seq!['#']
        } else if charset == 9 {
            seq!['\u{a3}']
        } else if charset == 10 {
            seq!['#']
        } else if charset == 11 {
            seq!['\u{a3}']
        } else {
            seq!['#']
        }
    } else if c == '0' {
        if charset == 0 {
            seq!['0']
        } else if charset == 1 {
            seq!['0']
        } else if charset == 2 {
            seq!['0']
        } else if charset == 3 {
            seq!['0']
        } else if charset == 4 {
            seq!['0']
        } else if charset == 5 {
            seq!['0']
        } else if charset == 6 {
            seq!['0']
        } else if charset == 7 {
            seq!['0']
        } else if charset == 8 {
            seq!['0']
        } else if charset == 9 {
            seq!['0']
        } else if charset == 10 {
            seq!['0']
        } else if charset == 11 {
            seq!['0']
        } else {
            seq!['0']
        }
    } else if c == '@' {
        if charset == 0 {
            seq!['@']
        } else if charset == 1 {
            seq!['@']
        } else if charset == 2 {
            seq!['@']
        } else if charset == 3 {
            seq!['\u{a7}']
        } else if charset == 4 {
            seq!['@']
        } else if charset == 5 {
            seq!['\u{c9}']
        } else if charset == 6 {
            seq!['\u{a7}']
        } else if charset == 7 {
            seq!['\u{e0}']
        } else if charset == 8 {
            seq!['\u{e0}']
        } else if charset == 9 {
            seq!['\u{a7}']
        } else if charset == 10 {
            seq!['\u{a7}']
        } else if charset == 11 {
            seq!['\u{c9}']
        } else {
            seq!['@']
        }
    } else if c == '[' {
        if charset == 0 {
            seq!['[']
        } else if charset == 1 {
            seq!['\u{2153}']
        } else if charset == 2 {
            seq!['[']
        } else if charset == 3 {
            seq!['[']
        } else if charset == 4 {
            seq!['\u{c6}']
        } else if charset == 5 {
            seq!['\u{c4}']
        } else if charset == 6 {
            seq!['\u{c4}']
        } else if charset == 7 {
            seq!['[']
        } else if charset == 8 {
            seq!['\u{e2}']
        } else if charset == 9 {
            seq!['[']
        } else if charset == 10 {
            seq!['\u{a1}']
        } else if charset == 11 {
            seq!['\u{c4}']
        } else {
            seq!['[']
        }
    } else if c == '\\' {
        if charset == 0 {
            seq!['\u{a2}']
        } else if charset == 1 {
            seq!['\u{a2}']
        } else if charset == 2 {
            seq!['\u{a2}']
        } else if charset == 3 {
            seq!['I', 'J']
        } else if charset == 4 {
            seq!['\u{d8}']
        } else if charset == 5 {
            seq!['\u{d6}']
        } else if charset == 6 {
            seq!['\u{d6}']
        } else if charset == 7 {
            seq!['\u{e7}']
        } else if charset == 8 {
            seq!['\u{e7}']
        } else if charset == 9 {
            seq!['\u{e7}']
        } else if charset == 10 {
            seq!['\u{d1}']
        } else if charset == 11 {
            seq!['\u{d6}']
        } else {
            seq!['\u{a5}']
        }
    } else if c == ']' {
        if charset == 0 {
            seq![']']
        } else if charset == 1 {
            seq!['\u{2154}']
        } else if charset == 2 {
            seq![']']
        } else if charset == 3 {
            seq![']']
        } else if charset == 4 {
            seq!['\u{c5}']
        } else if charset == 5 {
            seq!['\u{c5}']
        } else if charset == 6 {
            seq!['\u{dc}']
        } else if charset == 7 {
            seq![']']
        } else if charset == 8 {
            seq!['\u{ea}']
        } else if charset == 9 {
            seq!['\u{e9}']
        } else if charset == 10 {
            seq!['\u{bf}']
        } else if charset == 11 {
            seq!['\u{dc}']
        } else {
            seq![']']
        }
    } else if c == '^' {
        if charset == 0 {
            seq!['^']
        } else if charset == 1 {
            seq!['^']
        } else if charset == 2 {
            seq!['^']
        } else if charset == 3 {
            seq!['^']
        } else if charset == 4 {
            seq!['^']
        } else if charset == 5 {
            seq!['\u{dc}']
        } else if charset == 6 {
            seq!['^']
        } else if charset == 7 {
            seq!['^']
        } else if charset == 8 {
            seq!['\u{ee}']
        } else if charset == 9 {
            seq!['^']
        } else if charset == 10 {
            seq!['^']
        } else if charset == 11 {
            seq!['^']
        } else {
            seq!['^']
        }
    } else if c == '`' {
        if charset == 0 {
            seq!['`']
        } else if charset == 1 {
            seq!['`']
        } else if charset == 2 {
            seq!['`']
        } else if charset == 3 {
            seq!['`']
        } else if charset == 4 {
            seq!['`']
        } else if charset == 5 {
            seq!['\u{e9}']
        } else if charset == 6 {
            seq!['`']
        } else if charset == 7 {
            seq!['`']
        } else if charset == 8 {
            seq!['\u{f4}']
        } else if charset == 9 {
            seq!['\u{f9}']
        } else if charset == 10 {
            seq!['`']
        } else if charset == 11 {
            seq!['\u{e4}']
        } else {
            seq!['`']
        }
    } else if c == '{' {
        if charset == 0 {
            seq!['{']
        } else if charset == 1 {
            seq!['\u{bc}']
        } else if charset == 2 {
            seq!['{']
        } else if charset == 3 {
            seq!['{']
        } else if charset == 4 {
            seq!['\u{e6}']
        } else if charset == 5 {
            seq!['\u{e4}']
        } else if charset == 6 {
            seq!['\u{e4}']
        } else if charset == 7 {
            seq!['\u{e9}']
        } else if charset == 8 {
            seq!['\u{e9}']
        } else if charset == 9 {
            seq!['\u{e0}']
        } else if charset == 10 {
            seq!['{']
        } else if charset == 11 {
            seq!['\u{eb}']
        } else {
            seq!['{']
        }
    } else if c == '|' {
        if charset == 0 {
            seq!['|']
        } else if charset == 1 {
            seq!['\u{bd}']
        } else if charset == 2 {
            seq!['|']
        } else if charset == 3 {
            seq!['i', 'j']
        } else if charset == 4 {
            seq!['\u{f8}']
        } else if charset == 5 {
            seq!['\u{f6}']
        } else if charset == 6 {
            seq!['\u{f6}']
        } else if charset == 7 {
            seq!['|']
        } else if charset == 8 {
            seq!['\u{f9}']
        } else if charset == 9 {
            seq!['\u{f2}']
        } else if charset == 10 {
            seq!['\u{f1}']
        } else if charset == 11 {
            seq!['\u{ef}']
        } else {
            seq!['|']
        }
    } else if c == '}' {
        if charset == 0 {
            seq!['}']
        } else if charset == 1 {
            seq!['\u{be}']
        } else if charset == 2 {
            seq!['}']
        } else if charset == 3 {
            seq!['}']
        } else if charset == 4 {
            seq!['\u{e5}']
        } else if charset == 5 {
            seq!['\u{e5}']
        } else if charset == 6 {
            seq!['\u{fc}']
        } else if charset == 7 {
            seq!['\u{f9}']
        } else if charset == 8 {
            seq!['\u{e8}']
        } else if charset == 9 {
            seq!['\u{e8}']
        } else if charset == 10 {
            seq!['\u{e7}']
        } else if charset == 11 {
            seq!['\u{f6}']
        } else {
            seq!['}']
        }
    } else {
        seq![c]
    }
}

/// Appends what character set `charset` prints for `c`.
fn push_subst(out: &mut String, charset: usize, c: char)
    requires
        charset < 13,
    ensures
        final(out)@ == old(out)@ + charset_subst(charset as int, c),
{
    if c == '#' {
        if charset == 0 {
            push_char(out, '#');
        } else if charset == 1 {
            push_char(out, '#');
        } else if charset == 2 {
            push_char(out, '\u{a3}');
        } else if charset == 3 {
            push_char(out, '\u{192}');
        } else if charset == 4 {
            push_char(out, '#');
        } else if charset == 5 {
            push_char(out, '\u{dc}');
        } else if charset == 6 {
            push_char(out, '#');
        } else if charset == 7 {
            push_char(out, '\u{a3}');
        } else if charset == 8 {
            push_char(out, '#');
        } else if charset == 9 {
            push_char(out, '\u{a3}');
        } else if charset == 10 {
            push_char(out, '#');
        } else if charset == 11 {
            push_char(out, '\u{a3}');
        } else {
            push_char(out, '#');
        }
    } else if c == '0' {
        if charset == 0 {
            push_char(out, '0');
        } else if charset == 1 {
            push_char(out, '0');
        } else if charset == 2 {
            push_char(out, '0');
        } else if charset == 3 {
            push_char(out, '0');
        } else if charset == 4 {
            push_char(out, '0');
        } else if charset == 5 {
            push_char(out, '0');
        } else if charset == 6 {
            push_char(out, '0');
        } else if charset == 7 {
            push_char(out, '0');
        } else if charset == 8 {
            push_char(out, '0');
        } else if charset == 9 {
            push_char(out, '0');
        } else if charset == 10 {
            push_char(out, '0');
        } else if charset == 11 {
            push_char(out, '0');
        } else {
            push_char(out, '0');
        }
    } else if c == '@' {
        if charset == 0 {
            push_char(out, '@');
        } else if charset == 1 {
            push_char(out, '@');
        } else if charset == 2 {
            push_char(out, '@');
        } else if charset == 3 {
            push_char(out, '\u{a7}');
        } else if charset == 4 {
            push_char(out, '@');
        } else if charset == 5 {
            push_char(out, '\u{c9}');
        } else if charset == 6 {
            push_char(out, '\u{a7}');
        } else if charset == 7 {
            push_char(out, '\u{e0}');
        } else if charset == 8 {
            push_char(out, '\u{e0}');
        } else if charset == 9 {
            push_char(out, '\u{a7}');
        } else if charset == 10 {
            push_char(out, '\u{a7}');
        } else if charset == 11 {
            push_char(out, '\u{c9}');
        } else {
            push_char(out, '@');
        }
    } else if c == '[' {
        if charset == 0 {
            push_char(out, '[');
        } else if charset == 1 {
            push_char(out, '\u{2153}');
        } else if charset == 2 {
            push_char(out, '[');
        } else if charset == 3 {
            push_char(out, '[');
        } else if charset == 4 {
            push_char(out, '\u{c6}');
        } else if charset == 5 {
            push_char(out, '\u{c4}');
        } else if charset == 6 {
            push_char(out, '\u{c4}');
        } else if charset == 7 {
            push_char(out, '[');
        } else if charset == 8 {
            push_char(out, '\u{e2}');
        } else if charset == 9 {
            push_char(out, '[');
        } else if charset == 10 {
            push_char(out, '\u{a1}');
        } else if charset == 11 {
            push_char(out, '\u{c4}');
        } else {
            push_char(out, '[');
        }
    } else if c == '\\' {
        if charset == 0 {
            push_char(out, '\u{a2}');
        } else if charset == 1 {
            push_char(out, '\u{a2}');
        } else if charset == 2 {
            push_char(out, '\u{a2}');
        } else if charset == 3 {
            push_char(out, 'I');
            push_char(out, 'J');
        } else if charset == 4 {
            push_char(out, '\u{d8}');
        } else if charset == 5 {
            push_char(out, '\u{d6}');
        } else if charset == 6 {
            push_char(out, '\u{d6}');
        } else if charset == 7 {
            push_char(out, '\u{e7}');
        } else if charset == 8 {
            push_char(out, '\u{e7}');
        } else if charset == 9 {
            push_char(out, '\u{e7}');
        } else if charset == 10 {
            push_char(out, '\u{d1}');
        } else if charset == 11 {
            push_char(out, '\u{d6}');
        } else {
            push_char(out, '\u{a5}');
        }
    } else if c == ']' {
        if charset == 0 {
            push_char(out, ']');
        } else if charset == 1 {
            push_char(out, '\u{2154}');
        } else if charset == 2 {
            push_char(out, ']');
        } else if charset == 3 {
            push_char(out, ']');
        } else if charset == 4 {
            push_char(out, '\u{c5}');
        } else if charset == 5 {
            push_char(out, '\u{c5}');
        } else if charset == 6 {
            push_char(out, '\u{dc}');
        } else if charset == 7 {
            push_char(out, ']');
        } else if charset == 8 {
            push_char(out, '\u{ea}');
        } else if charset == 9 {
            push_char(out, '\u{e9}');
        } else if charset == 10 {
            push_char(out, '\u{bf}');
        } else if charset == 11 {
            push_char(out, '\u{dc}');
        } else {
            push_char(out, ']');
        }
    } else if c == '^' {
        if charset == 0 {
            push_char(out, '^');
        } else if charset == 1 {
            push_char(out, '^');
        } else if charset == 2 {
            push_char(out, '^');
        } else if charset == 3 {
            push_char(out, '^');
        } else if charset == 4 {
            push_char(out, '^');
        } else if charset == 5 {
            push_char(out, '\u{dc}');
        } else if charset == 6 {
            push_char(out, '^');
        } else if charset == 7 {
            push_char(out, '^');
        } else if charset == 8 {
            push_char(out, '\u{ee}');
        } else if charset == 9 {
            push_char(out, '^');
        } else if charset == 10 {
            push_char(out, '^');
        } else if charset == 11 {
            push_char(out, '^');
        } else {
            push_char(out, '^');
        }
    } else if c == '`' {
        if charset == 0 {
            push_char(out, '`');
        } else if charset == 1 {
            push_char(out, '`');
        } else if charset == 2 {
            push_char(out, '`');
        } else if charset == 3 {
            push_char(out, '`');
        } else if charset == 4 {
            push_char(out, '`');
        } else if charset == 5 {
            push_char(out, '\u{e9}');
        } else if charset == 6 {
            push_char(out, '`');
        } else if charset == 7 {
            push_char(out, '`');
        } else if charset == 8 {
            push_char(out, '\u{f4}');
        } else if charset == 9 {
            push_char(out, '\u{f9}');
        } else if charset == 10 {
            push_char(out, '`');
        } else if charset == 11 {
            push_char(out, '\u{e4}');
        } else {
            push_char(out, '`');
        }
    } else if c == '{' {
        if charset == 0 {
            push_char(out, '{');
        } else if charset == 1 {
            push_char(out, '\u{bc}');
        } else if charset == 2 {
            push_char(out, '{');
        } else if charset == 3 {
            push_char(out, '{');
        } else if charset == 4 {
            push_char(out, '\u{e6}');
        } else if charset == 5 {
            push_char(out, '\u{e4}');
        } else if charset == 6 {
            push_char(out, '\u{e4}');
        } else if charset == 7 {
            push_char(out, '\u{e9}');
        } else if charset == 8 {
            push_char(out, '\u{e9}');
        } else if charset == 9 {
            push_char(out, '\u{e0}');
        } else if charset == 10 {
            push_char(out, '{');
        } else if charset == 11 {
            push_char(out, '\u{eb}');
        } else {
            push_char(out, '{');
        }
    } else if c == '|' {
        if charset == 0 {
            push_char(out, '|');
        } else if charset == 1 {
            push_char(out, '\u{bd}');
        } else if charset == 2 {
            push_char(out, '|');
        } else if charset == 3 {
            push_char(out, 'i');
            push_char(out, 'j');
        } else if charset == 4 {
            push_char(out, '\u{f8}');
        } else if charset == 5 {
            push_char(out, '\u{f6}');
        } else if charset == 6 {
            push_char(out, '\u{f6}');
        } else if charset == 7 {
            push_char(out, '|');
        } else if charset == 8 {
            push_char(out, '\u{f9}');
        } else if charset == 9 {
            push_char(out, '\u{f2}');
        } else if charset == 10 {
            push_char(out, '\u{f1}');
        } else if charset == 11 {
            push_char(out, '\u{ef}');
        } else {
            push_char(out, '|');
        }
    } else if c == '}' {
        if charset == 0 {
            push_char(out, '}');
        } else if charset == 1 {
            push_char(out, '\u{be}');
        } else if charset == 2 {
            push_char(out, '}');
        } else if charset == 3 {
            push_char(out, '}');
        } else if charset == 4 {
            push_char(out, '\u{e5}');
        } else if charset == 5 {
            push_char(out, '\u{e5}');
        } else if charset == 6 {
            push_char(out, '\u{fc}');
        } else if charset == 7 {
            push_char(out, '\u{f9}');
        } else if charset == 8 {
            push_char(out, '\u{e8}');
        } else if charset == 9 {
            push_char(out, '\u{e8}');
        } else if charset == 10 {
            push_char(out, '\u{e7}');
        } else if charset == 11 {
            push_char(out, '\u{f6}');
        } else {
            push_char(out, '}');
        }
    } else {
        push_char(out, c);
    }
}

/// The characters that character set `charset` prints for the text `s`.
pub open spec fn substituted(charset: int, s: Seq<char>) -> Seq<char>
    decreases s.len(),
{
    if s.len() == 0 {
        Seq::<char>::empty()
    } else {
        substituted(charset, s.drop_last()) + charset_subst(charset, s.last())
    }
}

/// `s` read as code page 850 text.
pub open spec fn cp850_text(s: Seq<char>) -> Seq<char> {
    s.map_values(|c: char| cp850_of(c))
}

/// The Unicode text of field text printed in character set `charset`: sets 0 to 13
/// are variants of code page 850 (0 to 12 with their national substitutions),
/// every other set passes the text through.
pub open spec fn unicode_text(text: Seq<char>, charset: i32) -> Seq<char> {
    if 0 <= charset && charset <= 13 {
        if charset < 13 {
            substituted(charset as int, cp850_text(text))
        } else {
            cp850_text(text)
        }
    } else {
        text
    }
}

/// Reads each character of `text` as a code page 850 byte.
fn cp850_to_unicode(text: &[char]) -> (r: Vec<char>)
    ensures
        r@ == cp850_text(text@),
{
    let mut r: Vec<char> = Vec::new();
    let mut i: usize = 0;
    while i < text.len()
        invariant
            i <= text.len(),
            r@ == cp850_text(text@.take(i as int)),
        decreases text.len() - i,
    {
        let c = text[i];
        let code = c as u32;
        let m = if code < 128 {
            c
        } else {
            cp850_char((code % 256) as u8)
        };
        r.push(m);
        assert(cp850_text(text@.take(i + 1)) =~= cp850_text(text@.take(i as int)).push(m));
        i += 1;
    }
    assert(text@.take(text.len() as int) == text@);
    r
}

/// Replaces the characters of the reference set 13 with those of set `charset`.
fn apply_charset_substitutions(text: &[char], charset: usize) -> (r: String)
    requires
        charset < 13,
    ensures
        r@ == substituted(charset as int, text@),
{
    let mut r = String::new();
    let mut i: usize = 0;
    while i < text.len()
        invariant
            i <= text.len(),
            charset < 13,
            r@ == substituted(charset as int, text@.take(i as int)),
        decreases text.len() - i,
    {
        push_subst(&mut r, charset, text[i]);
        assert(text@.take(i + 1).drop_last() == text@.take(i as int));
        i += 1;
    }
    assert(text@.take(text.len() as int) == text@);
    r
}

/// Windows-1252 text is kept as it is.
fn windows1252_to_unicode(text: &str) -> (r: String)
    ensures
        r@ == text@,
{
    text.to_owned()
}

/// Converts field text printed in character set `charset` to Unicode; it always
/// succeeds.
pub fn to_unicode_text(text: &str, charset: i32) -> (r: Result<String, String>)
    ensures
        r matches Ok(s) && s@ == unicode_text(text@, charset),
{
    if 0 <= charset && charset <= 13 {
        let chars = chars_of(text);
        let mapped = cp850_to_unicode(&chars);
        if charset < 13 {
            Ok(apply_charset_substitutions(&mapped, charset as usize))
        } else {
            Ok(crate::text::string_of(&mapped))
        }
    } else if charset == 27 {
        Ok(windows1252_to_unicode(text))
    } else {
        Ok(text.to_owned())
    }
}


/// ASCII text reads the same in code page 850 (character set 13).
pub proof fn lemma_cp850_keeps_ascii(text: Seq<char>)
    requires
        forall|i: int| 0 <= i < text.len() ==> (#[trigger] text[i] as u32) < 128,
    ensures
        unicode_text(text, 13) == text,
{
    assert(cp850_text(text) =~= text);
}

} // verus!
