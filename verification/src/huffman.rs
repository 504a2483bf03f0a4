//! The fixed HTTP/2 Huffman code (RFC 7541 Appendix B): bit-packed
//! encoding and prefix-match decoding with EOS-bit padding.
use vstd::prelude::*;

use crate::hpack::HpackError;

verus! {

/// The code word of symbol `sym`; symbol 256 is EOS.
pub open spec fn spec_huff_code(sym: int) -> u32 {
    if sym == 0 {
        0x1ff8
    } else if sym == 1 {
        0x7fffd8
    } else if sym == 2 {
        0xfffffe2
    } else if sym == 3 {
        0xfffffe3
    } else if sym == 4 {
        0xfffffe4
    } else if sym == 5 {
        0xfffffe5
    } else if sym == 6 {
        0xfffffe6
    } else if sym == 7 {
        0xfffffe7
    } else if sym == 8 {
        0xfffffe8
    } else if sym == 9 {
        0xffffea
    } else if sym == 10 {
        0x3ffffffc
    } else if sym == 11 {
        0xfffffe9
    } else if sym == 12 {
        0xfffffea
    } else if sym == 13 {
        0x3ffffffd
    } else if sym == 14 {
        0xfffffeb
    } else if sym == 15 {
        0xfffffec
    } else if sym == 16 {
        0xfffffed
    } else if sym == 17 {
        0xfffffee
    } else if sym == 18 {
        0xfffffef
    } else if sym == 19 {
        0xffffff0
    } else if sym == 20 {
        0xffffff1
    } else if sym == 21 {
        0xffffff2
    } else if sym == 22 {
        0x3ffffffe
    } else if sym == 23 {
        0xffffff3
    } else if sym == 24 {
        0xffffff4
    } else if sym == 25 {
        0xffffff5
    } else if sym == 26 {
        0xffffff6
    } else if sym == 27 {
        0xffffff7
    } else if sym == 28 {
        0xffffff8
    } else if sym == 29 {
        0xffffff9
    } else if sym == 30 {
        0xffffffa
    } else if sym == 31 {
        0xffffffb
    } else if sym == 32 {
        0x14
    } else if sym == 33 {
        0x3f8
    } else if sym == 34 {
        0x3f9
    } else if sym == 35 {
        0xffa
    } else if sym == 36 {
        0x1ff9
    } else if sym == 37 {
        0x15
    } else if sym == 38 {
        0xf8
    } else if sym == 39 {
        0x7fa
    } else if sym == 40 {
        0x3fa
    } else if sym == 41 {
        0x3fb
    } else if sym == 42 {
        0xf9
    } else if sym == 43 {
        0x7fb
    } else if sym == 44 {
        0xfa
    } else if sym == 45 {
        0x16
    } else if sym == 46 {
        0x17
    } else if sym == 47 {
        0x18
    } else if sym == 48 {
        0x0
    } else if sym == 49 {
        0x1
    } else if sym == 50 {
        0x2
    } else if sym == 51 {
        0x19
    } else if sym == 52 {
        0x1a
    } else if sym == 53 {
        0x1b
    } else if sym == 54 {
        0x1c
    } else if sym == 55 {
        0x1d
    } else if sym == 56 {
        0x1e
    } else if sym == 57 {
        0x1f
    } else if sym == 58 {
        0x5c
    } else if sym == 59 {
        0xfb
    } else if sym == 60 {
        0x7ffc
    } else if sym == 61 {
        0x20
    } else if sym == 62 {
        0xffb
    } else if sym == 63 {
        0x3fc
    } else if sym == 64 {
        0x1ffa
    } else if sym == 65 {
        0x21
    } else if sym == 66 {
        0x5d
    } else if sym == 67 {
        0x5e
    } else if sym == 68 {
        0x5f
    } else if sym == 69 {
        0x60
    } else if sym == 70 {
        0x61
    } else if sym == 71 {
        0x62
    } else if sym == 72 {
        0x63
    } else if sym == 73 {
        0x64
    } else if sym == 74 {
        0x65
    } else if sym == 75 {
        0x66
    } else if sym == 76 {
        0x67
    } else if sym == 77 {
        0x68
    } else if sym == 78 {
        0x69
    } else if sym == 79 {
        0x6a
    } else if sym == 80 {
        0x6b
    } else if sym == 81 {
        0x6c
    } else if sym == 82 {
        0x6d
    } else if sym == 83 {
        0x6e
    } else if sym == 84 {
        0x6f
    } else if sym == 85 {
        0x70
    } else if sym == 86 {
        0x71
    } else if sym == 87 {
        0x72
    } else if sym == 88 {
        0xfc
    } else if sym == 89 {
        0x73
    } else if sym == 90 {
        0xfd
    } else if sym == 91 {
        0x1ffb
    } else if sym == 92 {
        0x7fff0
    } else if sym == 93 {
        0x1ffc
    } else if sym == 94 {
        0x3ffc
    } else if sym == 95 {
        0x22
    } else if sym == 96 {
        0x7ffd
    } else if sym == 97 {
        0x3
    } else if sym == 98 {
        0x23
    } else if sym == 99 {
        0x4
    } else if sym == 100 {
        0x24
    } else if sym == 101 {
        0x5
    } else if sym == 102 {
        0x25
    } else if sym == 103 {
        0x26
    } else if sym == 104 {
        0x27
    } else if sym == 105 {
        0x6
    } else if sym == 106 {
        0x74
    } else if sym == 107 {
        0x75
    } else if sym == 108 {
        0x28
    } else if sym == 109 {
        0x29
    } else if sym == 110 {
        0x2a
    } else if sym == 111 {
        0x7
    } else if sym == 112 {
        0x2b
    } else if sym == 113 {
        0x76
    } else if sym == 114 {
        0x2c
    } else if sym == 115 {
        0x8
    } else if sym == 116 {
        0x9
    } else if sym == 117 {
        0x2d
    } else if sym == 118 {
        0x77
    } else if sym == 119 {
        0x78
    } else if sym == 120 {
        0x79
    } else if sym == 121 {
        0x7a
    } else if sym == 122 {
        0x7b
    } else if sym == 123 {
        0x7ffe
    } else if sym == 124 {
        0x7fc
    } else if sym == 125 {
        0x3ffd
    } else if sym == 126 {
        0x1ffd
    } else if sym == 127 {
        0xffffffc
    } else if sym == 128 {
        0xfffe6
    } else if sym == 129 {
        0x3fffd2
    } else if sym == 130 {
        0xfffe7
    } else if sym == 131 {
        0xfffe8
    } else if sym == 132 {
        0x3fffd3
    } else if sym == 133 {
        0x3fffd4
    } else if sym == 134 {
        0x3fffd5
    } else if sym == 135 {
        0x7fffd9
    } else if sym == 136 {
        0x3fffd6
    } else if sym == 137 {
        0x7fffda
    } else if sym == 138 {
        0x7fffdb
    } else if sym == 139 {
        0x7fffdc
    } else if sym == 140 {
        0x7fffdd
    } else if sym == 141 {
        0x7fffde
    } else if sym == 142 {
        0xffffeb
    } else if sym == 143 {
        0x7fffdf
    } else if sym == 144 {
        0xffffec
    } else if sym == 145 {
        0xffffed
    } else if sym == 146 {
        0x3fffd7
    } else if sym == 147 {
        0x7fffe0
    } else if sym == 148 {
        0xffffee
    } else if sym == 149 {
        0x7fffe1
    } else if sym == 150 {
        0x7fffe2
    } else if sym == 151 {
        0x7fffe3
    } else if sym == 152 {
        0x7fffe4
    } else if sym == 153 {
        0x1fffdc
    } else if sym == 154 {
        0x3fffd8
    } else if sym == 155 {
        0x7fffe5
    } else if sym == 156 {
        0x3fffd9
    } else if sym == 157 {
        0x7fffe6
    } else if sym == 158 {
        0x7fffe7
    } else if sym == 159 {
        0xffffef
    } else if sym == 160 {
        0x3fffda
    } else if sym == 161 {
        0x1fffdd
    } else if sym == 162 {
        0xfffe9
    } else if sym == 163 {
        0x3fffdb
    } else if sym == 164 {
        0x3fffdc
    } else if sym == 165 {
        0x7fffe8
    } else if sym == 166 {
        0x7fffe9
    } else if sym == 167 {
        0x1fffde
    } else if sym == 168 {
        0x7fffea
    } else if sym == 169 {
        0x3fffdd
    } else if sym == 170 {
        0x3fffde
    } else if sym == 171 {
        0xfffff0
    } else if sym == 172 {
        0x1fffdf
    } else if sym == 173 {
        0x3fffdf
    } else if sym == 174 {
        0x7fffeb
    } else if sym == 175 {
        0x7fffec
    } else if sym == 176 {
        0x1fffe0
    } else if sym == 177 {
        0x1fffe1
    } else if sym == 178 {
        0x3fffe0
    } else if sym == 179 {
        0x1fffe2
    } else if sym == 180 {
        0x7fffed
    } else if sym == 181 {
        0x3fffe1
    } else if sym == 182 {
        0x7fffee
    } else if sym == 183 {
        0x7fffef
    } else if sym == 184 {
        0xfffea
    } else if sym == 185 {
        0x3fffe2
    } else if sym == 186 {
        0x3fffe3
    } else if sym == 187 {
        0x3fffe4
    } else if sym == 188 {
        0x7ffff0
    } else if sym == 189 {
        0x3fffe5
    } else if sym == 190 {
        0x3fffe6
    } else if sym == 191 {
        0x7ffff1
    } else if sym == 192 {
        0x3ffffe0
    } else if sym == 193 {
        0x3ffffe1
    } else if sym == 194 {
        0xfffeb
    } else if sym == 195 {
        0x7fff1
    } else if sym == 196 {
        0x3fffe7
    } else if sym == 197 {
        0x7ffff2
    } else if sym == 198 {
        0x3fffe8
    } else if sym == 199 {
        0x1ffffec
    } else if sym == 200 {
        0x3ffffe2
    } else if sym == 201 {
        0x3ffffe3
    } else if sym == 202 {
        0x3ffffe4
    } else if sym == 203 {
        0x7ffffde
    } else if sym == 204 {
        0x7ffffdf
    } else if sym == 205 {
        0x3ffffe5
    } else if sym == 206 {
        0xfffff1
    } else if sym == 207 {
        0x1ffffed
    } else if sym == 208 {
        0x7fff2
    } else if sym == 209 {
        0x1fffe3
    } else if sym == 210 {
        0x3ffffe6
    } else if sym == 211 {
        0x7ffffe0
    } else if sym == 212 {
        0x7ffffe1
    } else if sym == 213 {
        0x3ffffe7
    } else if sym == 214 {
        0x7ffffe2
    } else if sym == 215 {
        0xfffff2
    } else if sym == 216 {
        0x1fffe4
    } else if sym == 217 {
        0x1fffe5
    } else if sym == 218 {
        0x3ffffe8
    } else if sym == 219 {
        0x3ffffe9
    } else if sym == 220 {
        0xffffffd
    } else if sym == 221 {
        0x7ffffe3
    } else if sym == 222 {
        0x7ffffe4
    } else if sym == 223 {
        0x7ffffe5
    } else if sym == 224 {
        0xfffec
    } else if sym == 225 {
        0xfffff3
    } else if sym == 226 {
        0xfffed
    } else if sym == 227 {
        0x1fffe6
    } else if sym == 228 {
        0x3fffe9
    } else if sym == 229 {
        0x1fffe7
    } else if sym == 230 {
        0x1fffe8
    } else if sym == 231 {
        0x7ffff3
    } else if sym == 232 {
        0x3fffea
    } else if sym == 233 {
        0x3fffeb
    } else if sym == 234 {
        0x1ffffee
    } else if sym == 235 {
        0x1ffffef
    } else if sym == 236 {
        0xfffff4
    } else if sym == 237 {
        0xfffff5
    } else if sym == 238 {
        0x3ffffea
    } else if sym == 239 {
        0x7ffff4
    } else if sym == 240 {
        0x3ffffeb
    } else if sym == 241 {
        0x7ffffe6
    } else if sym == 242 {
        0x3ffffec
    } else if sym == 243 {
        0x3ffffed
    } else if sym == 244 {
        0x7ffffe7
    } else if sym == 245 {
        0x7ffffe8
    } else if sym == 246 {
        0x7ffffe9
    } else if sym == 247 {
        0x7ffffea
    } else if sym == 248 {
        0x7ffffeb
    } else if sym == 249 {
        0xffffffe
    } else if sym == 250 {
        0x7ffffec
    } else if sym == 251 {
        0x7ffffed
    } else if sym == 252 {
        0x7ffffee
    } else if sym == 253 {
        0x7ffffef
    } else if sym == 254 {
        0x7fffff0
    } else if sym == 255 {
        0x3ffffee
    } else {
        0x3fffffff
    }
}

/// The bit length of the code word of symbol `sym`.
pub open spec fn spec_huff_len(sym: int) -> u32 {
    if sym == 0 {
        13
    } else if sym == 1 {
        23
    } else if sym == 2 {
        28
    } else if sym == 3 {
        28
    } else if sym == 4 {
        28
    } else if sym == 5 {
        28
    } else if sym == 6 {
        28
    } else if sym == 7 {
        28
    } else if sym == 8 {
        28
    } else if sym == 9 {
        24
    } else if sym == 10 {
        30
    } else if sym == 11 {
        28
    } else if sym == 12 {
        28
    } else if sym == 13 {
        30
    } else if sym == 14 {
        28
    } else if sym == 15 {
        28
    } else if sym == 16 {
        28
    } else if sym == 17 {
        28
    } else if sym == 18 {
        28
    } else if sym == 19 {
        28
    } else if sym == 20 {
        28
    } else if sym == 21 {
        28
    } else if sym == 22 {
        30
    } else if sym == 23 {
        28
    } else if sym == 24 {
        28
    } else if sym == 25 {
        28
    } else if sym == 26 {
        28
    } else if sym == 27 {
        28
    } else if sym == 28 {
        28
    } else if sym == 29 {
        28
    } else if sym == 30 {
        28
    } else if sym == 31 {
        28
    } else if sym == 32 {
        6
    } else if sym == 33 {
        10
    } else if sym == 34 {
        10
    } else if sym == 35 {
        12
    } else if sym == 36 {
        13
    } else if sym == 37 {
        6
    } else if sym == 38 {
        8
    } else if sym == 39 {
        11
    } else if sym == 40 {
        10
    } else if sym == 41 {
        10
    } else if sym == 42 {
        8
    } else if sym == 43 {
        11
    } else if sym == 44 {
        8
    } else if sym == 45 {
        6
    } else if sym == 46 {
        6
    } else if sym == 47 {
        6
    } else if sym == 48 {
        5
    } else if sym == 49 {
        5
    } else if sym == 50 {
        5
    } else if sym == 51 {
        6
    } else if sym == 52 {
        6
    } else if sym == 53 {
        6
    } else if sym == 54 {
        6
    } else if sym == 55 {
        6
    } else if sym == 56 {
        6
    } else if sym == 57 {
        6
    } else if sym == 58 {
        7
    } else if sym == 59 {
        8
    } else if sym == 60 {
        15
    } else if sym == 61 {
        6
    } else if sym == 62 {
        12
    } else if sym == 63 {
        10
    } else if sym == 64 {
        13
    } else if sym == 65 {
        6
    } else if sym == 66 {
        7
    } else if sym == 67 {
        7
    } else if sym == 68 {
        7
    } else if sym == 69 {
        7
    } else if sym == 70 {
        7
    } else if sym == 71 {
        7
    } else if sym == 72 {
        7
    } else if sym == 73 {
        7
    } else if sym == 74 {
        7
    } else if sym == 75 {
        7
    } else if sym == 76 {
        7
    } else if sym == 77 {
        7
    } else if sym == 78 {
        7
    } else if sym == 79 {
        7
    } else if sym == 80 {
        7
    } else if sym == 81 {
        7
    } else if sym == 82 {
        7
    } else if sym == 83 {
        7
    } else if sym == 84 {
        7
    } else if sym == 85 {
        7
    } else if sym == 86 {
        7
    } else if sym == 87 {
        7
    } else if sym == 88 {
        8
    } else if sym == 89 {
        7
    } else if sym == 90 {
        8
    } else if sym == 91 {
        13
    } else if sym == 92 {
        19
    } else if sym == 93 {
        13
    } else if sym == 94 {
        14
    } else if sym == 95 {
        6
    } else if sym == 96 {
        15
    } else if sym == 97 {
        5
    } else if sym == 98 {
        6
    } else if sym == 99 {
        5
    } else if sym == 100 {
        6
    } else if sym == 101 {
        5
    } else if sym == 102 {
        6
    } else if sym == 103 {
        6
    } else if sym == 104 {
        6
    } else if sym == 105 {
        5
    } else if sym == 106 {
        7
    } else if sym == 107 {
        7
    } else if sym == 108 {
        6
    } else if sym == 109 {
        6
    } else if sym == 110 {
        6
    } else if sym == 111 {
        5
    } else if sym == 112 {
        6
    } else if sym == 113 {
        7
    } else if sym == 114 {
        6
    } else if sym == 115 {
        5
    } else if sym == 116 {
        5
    } else if sym == 117 {
        6
    } else if sym == 118 {
        7
    } else if sym == 119 {
        7
    } else if sym == 120 {
        7
    } else if sym == 121 {
        7
    } else if sym == 122 {
        7
    } else if sym == 123 {
        15
    } else if sym == 124 {
        11
    } else if sym == 125 {
        14
    } else if sym == 126 {
        13
    } else if sym == 127 {
        28
    } else if sym == 128 {
        20
    } else if sym == 129 {
        22
    } else if sym == 130 {
        20
    } else if sym == 131 {
        20
    } else if sym == 132 {
        22
    } else if sym == 133 {
        22
    } else if sym == 134 {
        22
    } else if sym == 135 {
        23
    } else if sym == 136 {
        22
    } else if sym == 137 {
        23
    } else if sym == 138 {
        23
    } else if sym == 139 {
        23
    } else if sym == 140 {
        23
    } else if sym == 141 {
        23
    } else if sym == 142 {
        24
    } else if sym == 143 {
        23
    } else if sym == 144 {
        24
    } else if sym == 145 {
        24
    } else if sym == 146 {
        22
    } else if sym == 147 {
        23
    } else if sym == 148 {
        24
    } else if sym == 149 {
        23
    } else if sym == 150 {
        23
    } else if sym == 151 {
        23
    } else if sym == 152 {
        23
    } else if sym == 153 {
        21
    } else if sym == 154 {
        22
    } else if sym == 155 {
        23
    } else if sym == 156 {
        22
    } else if sym == 157 {
        23
    } else if sym == 158 {
        23
    } else if sym == 159 {
        24
    } else if sym == 160 {
        22
    } else if sym == 161 {
        21
    } else if sym == 162 {
        20
    } else if sym == 163 {
        22
    } else if sym == 164 {
        22
    } else if sym == 165 {
        23
    } else if sym == 166 {
        23
    } else if sym == 167 {
        21
    } else if sym == 168 {
        23
    } else if sym == 169 {
        22
    } else if sym == 170 {
        22
    } else if sym == 171 {
        24
    } else if sym == 172 {
        21
    } else if sym == 173 {
        22
    } else if sym == 174 {
        23
    } else if sym == 175 {
        23
    } else if sym == 176 {
        21
    } else if sym == 177 {
        21
    } else if sym == 178 {
        22
    } else if sym == 179 {
        21
    } else if sym == 180 {
        23
    } else if sym == 181 {
        22
    } else if sym == 182 {
        23
    } else if sym == 183 {
        23
    } else if sym == 184 {
        20
    } else if sym == 185 {
        22
    } else if sym == 186 {
        22
    } else if sym == 187 {
        22
    } else if sym == 188 {
        23
    } else if sym == 189 {
        22
    } else if sym == 190 {
        22
    } else if sym == 191 {
        23
    } else if sym == 192 {
        26
    } else if sym == 193 {
        26
    } else if sym == 194 {
        20
    } else if sym == 195 {
        19
    } else if sym == 196 {
        22
    } else if sym == 197 {
        23
    } else if sym == 198 {
        22
    } else if sym == 199 {
        25
    } else if sym == 200 {
        26
    } else if sym == 201 {
        26
    } else if sym == 202 {
        26
    } else if sym == 203 {
        27
    } else if sym == 204 {
        27
    } else if sym == 205 {
        26
    } else if sym == 206 {
        24
    } else if sym == 207 {
        25
    } else if sym == 208 {
        19
    } else if sym == 209 {
        21
    } else if sym == 210 {
        26
    } else if sym == 211 {
        27
    } else if sym == 212 {
        27
    } else if sym == 213 {
        26
    } else if sym == 214 {
        27
    } else if sym == 215 {
        24
    } else if sym == 216 {
        21
    } else if sym == 217 {
        21
    } else if sym == 218 {
        26
    } else if sym == 219 {
        26
    } else if sym == 220 {
        28
    } else if sym == 221 {
        27
    } else if sym == 222 {
        27
    } else if sym == 223 {
        27
    } else if sym == 224 {
        20
    } else if sym == 225 {
        24
    } else if sym == 226 {
        20
    } else if sym == 227 {
        21
    } else if sym == 228 {
        22
    } else if sym == 229 {
        21
    } else if sym == 230 {
        21
    } else if sym == 231 {
        23
    } else if sym == 232 {
        22
    } else if sym == 233 {
        22
    } else if sym == 234 {
        25
    } else if sym == 235 {
        25
    } else if sym == 236 {
        24
    } else if sym == 237 {
        24
    } else if sym == 238 {
        26
    } else if sym == 239 {
        23
    } else if sym == 240 {
        26
    } else if sym == 241 {
        27
    } else if sym == 242 {
        26
    } else if sym == 243 {
        26
    } else if sym == 244 {
        27
    } else if sym == 245 {
        27
    } else if sym == 246 {
        27
    } else if sym == 247 {
        27
    } else if sym == 248 {
        27
    } else if sym == 249 {
        28
    } else if sym == 250 {
        27
    } else if sym == 251 {
        27
    } else if sym == 252 {
        27
    } else if sym == 253 {
        27
    } else if sym == 254 {
        27
    } else if sym == 255 {
        26
    } else {
        30
    }
}

/// `2^n`.
pub open spec fn spec_pow2(n: nat) -> nat
    decreases n,
{
    if n == 0 {
        1
    } else {
        2 * spec_pow2((n - 1) as nat)
    }
}

/// Computes `2^n`.
fn pow2_exec(n: u32) -> (r: u32)
    requires
        n <= 30,
    ensures
        r == spec_pow2(n as nat),
        r >= 1,
    decreases n,
{
    if n == 0 {
        1
    } else {
        let p = pow2_exec(n - 1);
        proof {
            lemma_pow2_bound(n as nat);
        }
        2 * p
    }
}

proof fn lemma_pow2_mono(a: nat, b: nat)
    requires
        a <= b,
    ensures
        spec_pow2(a) <= spec_pow2(b),
    decreases b,
{
    if a < b {
        lemma_pow2_mono(a, (b - 1) as nat);
        assert(2 * spec_pow2((b - 1) as nat) >= spec_pow2((b - 1) as nat)) by (nonlinear_arith)
            requires
                spec_pow2((b - 1) as nat) >= 0,
        ;
    }
}

proof fn lemma_pow2_bound(n: nat)
    requires
        n <= 30,
    ensures
        spec_pow2(n) <= 0x4000_0000,
{
    assert(spec_pow2(0) == 0x1);
    assert(spec_pow2(1) == 0x2);
    assert(spec_pow2(2) == 0x4);
    assert(spec_pow2(3) == 0x8);
    assert(spec_pow2(4) == 0x10);
    assert(spec_pow2(5) == 0x20);
    assert(spec_pow2(6) == 0x40);
    assert(spec_pow2(7) == 0x80);
    assert(spec_pow2(8) == 0x100);
    assert(spec_pow2(9) == 0x200);
    assert(spec_pow2(10) == 0x400);
    assert(spec_pow2(11) == 0x800);
    assert(spec_pow2(12) == 0x1000);
    assert(spec_pow2(13) == 0x2000);
    assert(spec_pow2(14) == 0x4000);
    assert(spec_pow2(15) == 0x8000);
    assert(spec_pow2(16) == 0x10000);
    assert(spec_pow2(17) == 0x20000);
    assert(spec_pow2(18) == 0x40000);
    assert(spec_pow2(19) == 0x80000);
    assert(spec_pow2(20) == 0x100000);
    assert(spec_pow2(21) == 0x200000);
    assert(spec_pow2(22) == 0x400000);
    assert(spec_pow2(23) == 0x800000);
    assert(spec_pow2(24) == 0x1000000);
    assert(spec_pow2(25) == 0x2000000);
    assert(spec_pow2(26) == 0x4000000);
    assert(spec_pow2(27) == 0x8000000);
    assert(spec_pow2(28) == 0x10000000);
    assert(spec_pow2(29) == 0x20000000);
    assert(spec_pow2(30) == 0x40000000);
    lemma_pow2_mono(n, 30);
}

/// The code word and bit length of a symbol.
#[verifier::rlimit(100)]
fn huff_entry(sym: u16) -> (r: (u32, u32))
    requires
        sym <= 256,
    ensures
        r.0 == spec_huff_code(sym as int),
        r.1 == spec_huff_len(sym as int),
        5 <= r.1 <= 30,
        r.0 < 0x4000_0000,
{
    match sym {
        0 => (0x1ff8, 13),
        1 => (0x7fffd8, 23),
        2 => (0xfffffe2, 28),
        3 => (0xfffffe3, 28),
        4 => (0xfffffe4, 28),
        5 => (0xfffffe5, 28),
        6 => (0xfffffe6, 28),
        7 => (0xfffffe7, 28),
        8 => (0xfffffe8, 28),
        9 => (0xffffea, 24),
        10 => (0x3ffffffc, 30),
        11 => (0xfffffe9, 28),
        12 => (0xfffffea, 28),
        13 => (0x3ffffffd, 30),
        14 => (0xfffffeb, 28),
        15 => (0xfffffec, 28),
        16 => (0xfffffed, 28),
        17 => (0xfffffee, 28),
        18 => (0xfffffef, 28),
        19 => (0xffffff0, 28),
        20 => (0xffffff1, 28),
        21 => (0xffffff2, 28),
        22 => (0x3ffffffe, 30),
        23 => (0xffffff3, 28),
        24 => (0xffffff4, 28),
        25 => (0xffffff5, 28),
        26 => (0xffffff6, 28),
        27 => (0xffffff7, 28),
        28 => (0xffffff8, 28),
        29 => (0xffffff9, 28),
        30 => (0xffffffa, 28),
        31 => (0xffffffb, 28),
        32 => (0x14, 6),
        33 => (0x3f8, 10),
        34 => (0x3f9, 10),
        35 => (0xffa, 12),
        36 => (0x1ff9, 13),
        37 => (0x15, 6),
        38 => (0xf8, 8),
        39 => (0x7fa, 11),
        40 => (0x3fa, 10),
        41 => (0x3fb, 10),
        42 => (0xf9, 8),
        43 => (0x7fb, 11),
        44 => (0xfa, 8),
        45 => (0x16, 6),
        46 => (0x17, 6),
        47 => (0x18, 6),
        48 => (0x0, 5),
        49 => (0x1, 5),
        50 => (0x2, 5),
        51 => (0x19, 6),
        52 => (0x1a, 6),
        53 => (0x1b, 6),
        54 => (0x1c, 6),
        55 => (0x1d, 6),
        56 => (0x1e, 6),
        57 => (0x1f, 6),
        58 => (0x5c, 7),
        59 => (0xfb, 8),
        60 => (0x7ffc, 15),
        61 => (0x20, 6),
        62 => (0xffb, 12),
        63 => (0x3fc, 10),
        64 => (0x1ffa, 13),
        65 => (0x21, 6),
        66 => (0x5d, 7),
        67 => (0x5e, 7),
        68 => (0x5f, 7),
        69 => (0x60, 7),
        70 => (0x61, 7),
        71 => (0x62, 7),
        72 => (0x63, 7),
        73 => (0x64, 7),
        74 => (0x65, 7),
        75 => (0x66, 7),
        76 => (0x67, 7),
        77 => (0x68, 7),
        78 => (0x69, 7),
        79 => (0x6a, 7),
        80 => (0x6b, 7),
        81 => (0x6c, 7),
        82 => (0x6d, 7),
        83 => (0x6e, 7),
        84 => (0x6f, 7),
        85 => (0x70, 7),
        86 => (0x71, 7),
        87 => (0x72, 7),
        88 => (0xfc, 8),
        89 => (0x73, 7),
        90 => (0xfd, 8),
        91 => (0x1ffb, 13),
        92 => (0x7fff0, 19),
        93 => (0x1ffc, 13),
        94 => (0x3ffc, 14),
        95 => (0x22, 6),
        96 => (0x7ffd, 15),
        97 => (0x3, 5),
        98 => (0x23, 6),
        99 => (0x4, 5),
        100 => (0x24, 6),
        101 => (0x5, 5),
        102 => (0x25, 6),
        103 => (0x26, 6),
        104 => (0x27, 6),
        105 => (0x6, 5),
        106 => (0x74, 7),
        107 => (0x75, 7),
        108 => (0x28, 6),
        109 => (0x29, 6),
        110 => (0x2a, 6),
        111 => (0x7, 5),
        112 => (0x2b, 6),
        113 => (0x76, 7),
        114 => (0x2c, 6),
        115 => (0x8, 5),
        116 => (0x9, 5),
        117 => (0x2d, 6),
        118 => (0x77, 7),
        119 => (0x78, 7),
        120 => (0x79, 7),
        121 => (0x7a, 7),
        122 => (0x7b, 7),
        123 => (0x7ffe, 15),
        124 => (0x7fc, 11),
        125 => (0x3ffd, 14),
        126 => (0x1ffd, 13),
        127 => (0xffffffc, 28),
        128 => (0xfffe6, 20),
        129 => (0x3fffd2, 22),
        130 => (0xfffe7, 20),
        131 => (0xfffe8, 20),
        132 => (0x3fffd3, 22),
        133 => (0x3fffd4, 22),
        134 => (0x3fffd5, 22),
        135 => (0x7fffd9, 23),
        136 => (0x3fffd6, 22),
        137 => (0x7fffda, 23),
        138 => (0x7fffdb, 23),
        139 => (0x7fffdc, 23),
        140 => (0x7fffdd, 23),
        141 => (0x7fffde, 23),
        142 => (0xffffeb, 24),
        143 => (0x7fffdf, 23),
        144 => (0xffffec, 24),
        145 => (0xffffed, 24),
        146 => (0x3fffd7, 22),
        147 => (0x7fffe0, 23),
        148 => (0xffffee, 24),
        149 => (0x7fffe1, 23),
        150 => (0x7fffe2, 23),
        151 => (0x7fffe3, 23),
        152 => (0x7fffe4, 23),
        153 => (0x1fffdc, 21),
        154 => (0x3fffd8, 22),
        155 => (0x7fffe5, 23),
        156 => (0x3fffd9, 22),
        157 => (0x7fffe6, 23),
        158 => (0x7fffe7, 23),
        159 => (0xffffef, 24),
        160 => (0x3fffda, 22),
        161 => (0x1fffdd, 21),
        162 => (0xfffe9, 20),
        163 => (0x3fffdb, 22),
        164 => (0x3fffdc, 22),
        165 => (0x7fffe8, 23),
        166 => (0x7fffe9, 23),
        167 => (0x1fffde, 21),
        168 => (0x7fffea, 23),
        169 => (0x3fffdd, 22),
        170 => (0x3fffde, 22),
        171 => (0xfffff0, 24),
        172 => (0x1fffdf, 21),
        173 => (0x3fffdf, 22),
        174 => (0x7fffeb, 23),
        175 => (0x7fffec, 23),
        176 => (0x1fffe0, 21),
        177 => (0x1fffe1, 21),
        178 => (0x3fffe0, 22),
        179 => (0x1fffe2, 21),
        180 => (0x7fffed, 23),
        181 => (0x3fffe1, 22),
        182 => (0x7fffee, 23),
        183 => (0x7fffef, 23),
        184 => (0xfffea, 20),
        185 => (0x3fffe2, 22),
        186 => (0x3fffe3, 22),
        187 => (0x3fffe4, 22),
        188 => (0x7ffff0, 23),
        189 => (0x3fffe5, 22),
        190 => (0x3fffe6, 22),
        191 => (0x7ffff1, 23),
        192 => (0x3ffffe0, 26),
        193 => (0x3ffffe1, 26),
        194 => (0xfffeb, 20),
        195 => (0x7fff1, 19),
        196 => (0x3fffe7, 22),
        197 => (0x7ffff2, 23),
        198 => (0x3fffe8, 22),
        199 => (0x1ffffec, 25),
        200 => (0x3ffffe2, 26),
        201 => (0x3ffffe3, 26),
        202 => (0x3ffffe4, 26),
        203 => (0x7ffffde, 27),
        204 => (0x7ffffdf, 27),
        205 => (0x3ffffe5, 26),
        206 => (0xfffff1, 24),
        207 => (0x1ffffed, 25),
        208 => (0x7fff2, 19),
        209 => (0x1fffe3, 21),
        210 => (0x3ffffe6, 26),
        211 => (0x7ffffe0, 27),
        212 => (0x7ffffe1, 27),
        213 => (0x3ffffe7, 26),
        214 => (0x7ffffe2, 27),
        215 => (0xfffff2, 24),
        216 => (0x1fffe4, 21),
        217 => (0x1fffe5, 21),
        218 => (0x3ffffe8, 26),
        219 => (0x3ffffe9, 26),
        220 => (0xffffffd, 28),
        221 => (0x7ffffe3, 27),
        222 => (0x7ffffe4, 27),
        223 => (0x7ffffe5, 27),
        224 => (0xfffec, 20),
        225 => (0xfffff3, 24),
        226 => (0xfffed, 20),
        227 => (0x1fffe6, 21),
        228 => (0x3fffe9, 22),
        229 => (0x1fffe7, 21),
        230 => (0x1fffe8, 21),
        231 => (0x7ffff3, 23),
        232 => (0x3fffea, 22),
        233 => (0x3fffeb, 22),
        234 => (0x1ffffee, 25),
        235 => (0x1ffffef, 25),
        236 => (0xfffff4, 24),
        237 => (0xfffff5, 24),
        238 => (0x3ffffea, 26),
        239 => (0x7ffff4, 23),
        240 => (0x3ffffeb, 26),
        241 => (0x7ffffe6, 27),
        242 => (0x3ffffec, 26),
        243 => (0x3ffffed, 26),
        244 => (0x7ffffe7, 27),
        245 => (0x7ffffe8, 27),
        246 => (0x7ffffe9, 27),
        247 => (0x7ffffea, 27),
        248 => (0x7ffffeb, 27),
        249 => (0xffffffe, 28),
        250 => (0x7ffffec, 27),
        251 => (0x7ffffed, 27),
        252 => (0x7ffffee, 27),
        253 => (0x7ffffef, 27),
        254 => (0x7fffff0, 27),
        255 => (0x3ffffee, 26),
        _ => (0x3fffffff, 30),
    }
}

/// Bit `i` (most significant first) of the code word of `sym`.
pub open spec fn spec_code_bits(sym: int) -> Seq<bool> {
    Seq::new(
        spec_huff_len(sym) as nat,
        |i: int|
            ((spec_huff_code(sym) as nat) / spec_pow2(
                (spec_huff_len(sym) - 1 - i) as nat,
            )) % 2 == 1,
    )
}

/// The concatenated code words of the input bytes.
pub open spec fn spec_bits_of(s: Seq<u8>) -> Seq<bool>
    decreases s.len(),
{
    if s.len() == 0 {
        Seq::empty()
    } else {
        spec_bits_of(s.drop_last()) + spec_code_bits(s.last() as int)
    }
}

/// How many one-bits pad the stream to a byte boundary.
pub open spec fn spec_pad_len(n: nat) -> nat {
    ((8 - n % 8) % 8) as nat
}

/// The bit stream padded with one-bits (a prefix of EOS).
pub open spec fn spec_padded(bits: Seq<bool>) -> Seq<bool> {
    bits + Seq::new(spec_pad_len(bits.len()), |i: int| true)
}

/// Packs a byte-aligned bit stream into bytes, most significant bit
/// first.
pub open spec fn spec_byte_of_bits(b: Seq<bool>) -> u8
    recommends
        b.len() == 8,
{
    ((if b[0] {
        128nat
    } else {
        0nat
    }) + (if b[1] {
        64nat
    } else {
        0nat
    }) + (if b[2] {
        32nat
    } else {
        0nat
    }) + (if b[3] {
        16nat
    } else {
        0nat
    }) + (if b[4] {
        8nat
    } else {
        0nat
    }) + (if b[5] {
        4nat
    } else {
        0nat
    }) + (if b[6] {
        2nat
    } else {
        0nat
    }) + (if b[7] {
        1nat
    } else {
        0nat
    })) as u8
}

pub open spec fn spec_pack(bits: Seq<bool>) -> Seq<u8>
    recommends
        bits.len() % 8 == 0,
{
    Seq::new(bits.len() / 8, |i: int| spec_byte_of_bits(bits.subrange(8 * i, 8 * i + 8)))
}

/// Unpacks bytes into their bit stream, most significant bit first.
pub open spec fn spec_unpack(bytes: Seq<u8>) -> Seq<bool> {
    Seq::new(
        8 * bytes.len(),
        |k: int| ((bytes[k / 8] as nat) / spec_pow2((7 - k % 8) as nat)) % 2 == 1,
    )
}

/// Encodes bytes with the fixed Huffman code, padding the final byte
/// with one-bits drawn from EOS.
#[verifier::rlimit(100)]
pub fn huffman_encode(input: &[u8]) -> (r: Vec<u8>)
    ensures
        r@ =~= spec_pack(spec_padded(spec_bits_of(input@))),
{
    let mut bits: Vec<bool> = Vec::new();
    let n = input.len();
    let mut i: usize = 0;
    proof {
        assert(input@.subrange(0, 0) =~= Seq::<u8>::empty());
    }
    while i < n
        invariant
            i <= n,
            n == input@.len(),
            bits@ =~= spec_bits_of(input@.subrange(0, i as int)),
        decreases n - i,
    {
        let sym = input[i];
        let (code, len) = huff_entry(sym as u16);
        let ghost before = bits@;
        let mut j: u32 = 0;
        while j < len
            invariant
                j <= len,
                code == spec_huff_code(sym as int),
                len == spec_huff_len(sym as int),
                5 <= len <= 30,
                bits@ =~= before + spec_code_bits(sym as int).subrange(0, j as int),
            decreases len - j,
        {
            let p = pow2_exec(len - 1 - j);
            bits.push((code / p) % 2 == 1);
            proof {
                assert(bits@ =~= before + spec_code_bits(sym as int).subrange(0, j + 1));
            }
            j = j + 1;
        }
        proof {
            assert(spec_code_bits(sym as int).subrange(0, len as int) =~= spec_code_bits(
                sym as int,
            ));
            let sub1 = input@.subrange(0, i + 1);
            assert(sub1.drop_last() =~= input@.subrange(0, i as int));
            assert(sub1.last() == input@[i as int]);
        }
        i = i + 1;
    }
    proof {
        assert(input@.subrange(0, n as int) =~= input@);
    }
    let ghost base = bits@;
    let mut pad: usize = 0;
    while bits.len() % 8 != 0
        invariant
            bits@ =~= base + Seq::new(pad as nat, |t: int| true),
            pad <= spec_pad_len(base.len()),
        decreases spec_pad_len(base.len()) - pad,
    {
        bits.push(true);
        pad = pad + 1;
        proof {
            assert(bits@ =~= base + Seq::new(pad as nat, |t: int| true));
        }
    }
    proof {
        assert(pad == spec_pad_len(base.len()));
        assert(bits@ =~= spec_padded(base));
    }
    let total = bits.len();
    let groups = total / 8;
    let mut out: Vec<u8> = Vec::new();
    let mut g: usize = 0;
    while g < groups
        invariant
            g <= groups,
            groups == bits@.len() / 8,
            bits@.len() % 8 == 0,
            bits@.len() <= usize::MAX,
            out@.len() == g,
            forall|t: int|
                0 <= t < g ==> out@[t] == spec_byte_of_bits(
                    #[trigger] bits@.subrange(8 * t, 8 * t + 8),
                ),
        decreases groups - g,
    {
        proof {
            assert(8 * g + 8 <= bits@.len()) by (nonlinear_arith)
                requires
                    g < bits@.len() / 8,
                    bits@.len() % 8 == 0,
            ;
        }
        let b0: u8 = if bits[8 * g] {
            128
        } else {
            0
        };
        let b1: u8 = if bits[8 * g + 1] {
            64
        } else {
            0
        };
        let b2: u8 = if bits[8 * g + 2] {
            32
        } else {
            0
        };
        let b3: u8 = if bits[8 * g + 3] {
            16
        } else {
            0
        };
        let b4: u8 = if bits[8 * g + 4] {
            8
        } else {
            0
        };
        let b5: u8 = if bits[8 * g + 5] {
            4
        } else {
            0
        };
        let b6: u8 = if bits[8 * g + 6] {
            2
        } else {
            0
        };
        let b7: u8 = if bits[8 * g + 7] {
            1
        } else {
            0
        };
        out.push(b0 + b1 + b2 + b3 + b4 + b5 + b6 + b7);
        proof {
            let sub = bits@.subrange(8 * (g as int), 8 * (g as int) + 8);
            assert(sub[0] == bits@[8 * (g as int)]);
            assert(sub[1] == bits@[8 * (g as int) + 1]);
            assert(sub[2] == bits@[8 * (g as int) + 2]);
            assert(sub[3] == bits@[8 * (g as int) + 3]);
            assert(sub[4] == bits@[8 * (g as int) + 4]);
            assert(sub[5] == bits@[8 * (g as int) + 5]);
            assert(sub[6] == bits@[8 * (g as int) + 6]);
            assert(sub[7] == bits@[8 * (g as int) + 7]);
        }
        g = g + 1;
    }
    proof {
        assert(out@ =~= spec_pack(bits@));
    }
    out
}

/// The first symbol (in index order) whose code word matches the bits
/// at `pos`, trying symbols from `sym` up.
pub open spec fn spec_match_from(bits: Seq<bool>, pos: int, sym: int) -> Option<int>
    decreases 257 - sym,
{
    if sym < 0 || sym >= 257 {
        None
    } else if pos + spec_huff_len(sym) <= bits.len() && bits.subrange(
        pos,
        pos + spec_huff_len(sym),
    ) == spec_code_bits(sym) {
        Some(sym)
    } else {
        spec_match_from(bits, pos, sym + 1)
    }
}

/// Greedy prefix-match decoding from `pos`: emits the matched symbol
/// and continues; accepts up to seven one-bits of final padding; EOS in
/// the payload, bad padding, or an unmatched prefix is an error.
pub open spec fn spec_decode_from(bits: Seq<bool>, pos: int) -> Option<Seq<u8>>
    recommends
        0 <= pos <= bits.len(),
    decreases bits.len() - pos,
{
    if pos < 0 || pos >= bits.len() {
        Some(Seq::empty())
    } else {
        match spec_match_from(bits, pos, 0) {
            Some(s) => if s == 256 {
                None
            } else {
                let step: int = if spec_huff_len(s) < 1 {
                    1
                } else {
                    spec_huff_len(s) as int
                };
                if pos + step > bits.len() {
                    None
                } else {
                    match spec_decode_from(bits, pos + step) {
                        Some(t) => Some(seq![s as u8] + t),
                        None => None,
                    }
                }
            },
            None => if bits.len() - pos <= 7 && (forall|t: int|
                pos <= t < bits.len() ==> bits[t]) {
                Some(Seq::empty())
            } else {
                None
            },
        }
    }
}

/// Bit `j` of a packed byte is the bit that was packed there.
#[verifier::spinoff_prover]
#[verifier::rlimit(100)]
proof fn lemma_byte_bits(b: Seq<bool>, j: int)
    requires
        b.len() == 8,
        0 <= j < 8,
    ensures
        (((spec_byte_of_bits(b) as nat) / spec_pow2((7 - j) as nat)) % 2 == 1) == b[j],
{
    let a0: int = if b[0] { 1 } else { 0 };
    let a1: int = if b[1] { 1 } else { 0 };
    let a2: int = if b[2] { 1 } else { 0 };
    let a3: int = if b[3] { 1 } else { 0 };
    let a4: int = if b[4] { 1 } else { 0 };
    let a5: int = if b[5] { 1 } else { 0 };
    let a6: int = if b[6] { 1 } else { 0 };
    let a7: int = if b[7] { 1 } else { 0 };
    let v: int = spec_byte_of_bits(b) as int;
    assert(v == a0 * 128 + a1 * 64 + a2 * 32 + a3 * 16 + a4 * 8 + a5 * 4 + a6 * 2 + a7);
    assert(spec_pow2(0) == 1);
    assert(spec_pow2(1) == 2);
    assert(spec_pow2(2) == 4);
    assert(spec_pow2(3) == 8);
    assert(spec_pow2(4) == 16);
    assert(spec_pow2(5) == 32);
    assert(spec_pow2(6) == 64);
    assert(spec_pow2(7) == 128);
    if j == 0 {
        vstd::arithmetic::div_mod::lemma_fundamental_div_mod_converse(v, 128, a0, v - a0 * 128);
        vstd::arithmetic::div_mod::lemma_fundamental_div_mod_converse(a0, 2, 0, a0);
    } else if j == 1 {
        vstd::arithmetic::div_mod::lemma_fundamental_div_mod_converse(
            v,
            64,
            2 * a0 + a1,
            v - (2 * a0 + a1) * 64,
        );
        vstd::arithmetic::div_mod::lemma_fundamental_div_mod_converse(2 * a0 + a1, 2, a0, a1);
    } else if j == 2 {
        let q = 4 * a0 + 2 * a1 + a2;
        vstd::arithmetic::div_mod::lemma_fundamental_div_mod_converse(v, 32, q, v - q * 32);
        vstd::arithmetic::div_mod::lemma_fundamental_div_mod_converse(q, 2, 2 * a0 + a1, a2);
    } else if j == 3 {
        let q = 8 * a0 + 4 * a1 + 2 * a2 + a3;
        vstd::arithmetic::div_mod::lemma_fundamental_div_mod_converse(v, 16, q, v - q * 16);
        vstd::arithmetic::div_mod::lemma_fundamental_div_mod_converse(
            q,
            2,
            4 * a0 + 2 * a1 + a2,
            a3,
        );
    } else if j == 4 {
        let q = 16 * a0 + 8 * a1 + 4 * a2 + 2 * a3 + a4;
        vstd::arithmetic::div_mod::lemma_fundamental_div_mod_converse(v, 8, q, v - q * 8);
        vstd::arithmetic::div_mod::lemma_fundamental_div_mod_converse(
            q,
            2,
            8 * a0 + 4 * a1 + 2 * a2 + a3,
            a4,
        );
    } else if j == 5 {
        let q = 32 * a0 + 16 * a1 + 8 * a2 + 4 * a3 + 2 * a4 + a5;
        vstd::arithmetic::div_mod::lemma_fundamental_div_mod_converse(v, 4, q, v - q * 4);
        vstd::arithmetic::div_mod::lemma_fundamental_div_mod_converse(
            q,
            2,
            16 * a0 + 8 * a1 + 4 * a2 + 2 * a3 + a4,
            a5,
        );
    } else if j == 6 {
        let q = 64 * a0 + 32 * a1 + 16 * a2 + 8 * a3 + 4 * a4 + 2 * a5 + a6;
        vstd::arithmetic::div_mod::lemma_fundamental_div_mod_converse(v, 2, q, v - q * 2);
        vstd::arithmetic::div_mod::lemma_fundamental_div_mod_converse(
            q,
            2,
            32 * a0 + 16 * a1 + 8 * a2 + 4 * a3 + 2 * a4 + a5,
            a6,
        );
    } else {
        vstd::arithmetic::div_mod::lemma_fundamental_div_mod_converse(v, 1, v, 0);
        vstd::arithmetic::div_mod::lemma_fundamental_div_mod_converse(
            v,
            2,
            64 * a0 + 32 * a1 + 16 * a2 + 8 * a3 + 4 * a4 + 2 * a5 + a6,
            a7,
        );
    }
}

/// Unpacking a packed byte-aligned bit stream returns the same bits.
pub proof fn lemma_unpack_pack(bits: Seq<bool>)
    requires
        bits.len() % 8 == 0,
    ensures
        spec_unpack(spec_pack(bits)) =~= bits,
{
    let bytes = spec_pack(bits);
    assert(8 * bytes.len() == bits.len()) by (nonlinear_arith)
        requires
            bytes.len() == bits.len() / 8,
            bits.len() % 8 == 0,
    ;
    assert forall|k: int| 0 <= k < bits.len() implies spec_unpack(bytes)[k] == bits[k] by {
        let i = k / 8;
        let j = k % 8;
        assert(0 <= j < 8 && k == 8 * i + j && 0 <= i < bytes.len()) by (nonlinear_arith)
            requires
                i == k / 8,
                j == k % 8,
                0 <= k < 8 * bytes.len(),
        ;
        let sub = bits.subrange(8 * i, 8 * i + 8);
        lemma_byte_bits(sub, j);
        assert(sub[j] == bits[8 * i + j]);
    }
}

/// The decoder unpacks from the encoder's output exactly the padded bit
/// stream the encoder packed: the byte packing of this codec loses
/// nothing.
pub proof fn lemma_pack_unpack_round_trip(s: Seq<u8>)
    ensures
        spec_unpack(spec_pack(spec_padded(spec_bits_of(s)))) =~= spec_padded(spec_bits_of(s)),
{
    let bits = spec_bits_of(s);
    let l = bits.len() as int;
    assert(spec_padded(bits).len() == l + ((8 - l % 8) % 8));
    assert((l + ((8 - l % 8) % 8)) % 8 == 0) by (nonlinear_arith)
        requires
            l >= 0,
    ;
    lemma_unpack_pack(spec_padded(bits));
}

/// Reads bit `k` of the packed input.
fn get_bit(data: &[u8], k: usize) -> (r: bool)
    requires
        k < 8 * data@.len(),
    ensures
        r == spec_unpack(data@)[k as int],
{
    proof {
        assert(k / 8 < data@.len()) by (nonlinear_arith)
            requires
                k < 8 * data@.len(),
        ;
    }
    let b = data[k / 8];
    let j = (k % 8) as u32;
    let p = pow2_exec(7 - j);
    ((b as u32) / p) % 2 == 1
}

/// Finds the first symbol whose code word matches at `pos`.
fn match_sym(data: &[u8], pos: usize) -> (r: Option<u16>)
    requires
        pos <= 8 * data@.len(),
        data@.len() <= usize::MAX / 8,
    ensures
        match r {
            Some(s) => s <= 256 && spec_match_from(spec_unpack(data@), pos as int, 0) == Some(
                s as int,
            ),
            None => spec_match_from(spec_unpack(data@), pos as int, 0) == None::<int>,
        },
{
    let ghost bits = spec_unpack(data@);
    let total = 8 * data.len();
    proof {
        assert(bits.len() == total);
    }
    let mut sym: u16 = 0;
    while sym < 257
        invariant
            sym <= 257,
            total == 8 * data@.len(),
            pos <= total,
            bits == spec_unpack(data@),
            bits.len() == total,
            spec_match_from(bits, pos as int, 0) == spec_match_from(bits, pos as int, sym as int),
        decreases 257 - sym,
    {
        let (code, len) = huff_entry(sym);
        if (len as usize) <= total - pos {
            let mut j: u32 = 0;
            let mut hit = true;
            while j < len
                invariant
                    j <= len,
                    code == spec_huff_code(sym as int),
                    len == spec_huff_len(sym as int),
                    5 <= len <= 30,
                    pos + len <= total,
                    total == 8 * data@.len(),
                    bits == spec_unpack(data@),
                    bits.len() == total,
                    hit ==> forall|t: int|
                        0 <= t < j ==> bits[pos + t] == spec_code_bits(sym as int)[t],
                    !hit ==> bits.subrange(pos as int, pos + len) != spec_code_bits(sym as int),
                decreases len - j,
            {
                let p = pow2_exec(len - 1 - j);
                let want = (code / p) % 2 == 1;
                let have = get_bit(data, pos + (j as usize));
                if want != have {
                    proof {
                        let sub = bits.subrange(pos as int, pos + len);
                        if sub == spec_code_bits(sym as int) {
                            assert(sub[j as int] == spec_code_bits(sym as int)[j as int]);
                            assert(sub[j as int] == bits[pos + j]);
                        }
                    }
                    hit = false;
                    j = len;
                } else {
                    j = j + 1;
                }
            }
            if hit {
                proof {
                    assert(bits.subrange(pos as int, pos + len) =~= spec_code_bits(sym as int));
                }
                return Some(sym);
            }
        }
        proof {
            assert(spec_match_from(bits, pos as int, sym as int) == spec_match_from(
                bits,
                pos as int,
                sym as int + 1,
            ));
        }
        sym = sym + 1;
    }
    None
}

/// Decodes a Huffman-coded byte string.
pub fn huffman_decode(input: &[u8]) -> (r: Result<Vec<u8>, HpackError>)
    requires
        input@.len() <= usize::MAX / 8,
    ensures
        match r {
            Ok(v) => spec_decode_from(spec_unpack(input@), 0) == Some(v@),
            Err(e) => {
                &&& spec_decode_from(spec_unpack(input@), 0) == None::<Seq<u8>>
                &&& e == HpackError::HuffmanDecodingError
            },
        },
{
    let ghost bits = spec_unpack(input@);
    let total = 8 * input.len();
    proof {
        assert(bits.len() == total);
    }
    let mut out: Vec<u8> = Vec::new();
    let mut pos: usize = 0;
    proof {
        assert(out@ =~= Seq::<u8>::empty());
    }
    while pos < total
        invariant
            pos <= total,
            total == 8 * input@.len(),
            input@.len() <= usize::MAX / 8,
            bits == spec_unpack(input@),
            bits.len() == total,
            spec_decode_from(bits, 0) == (match spec_decode_from(bits, pos as int) {
                Some(t) => Some(out@ + t),
                None => None::<Seq<u8>>,
            }),
        decreases total - pos,
    {
        match match_sym(input, pos) {
            Some(s) => {
                if s == 256 {
                    return Err(HpackError::HuffmanDecodingError);
                }
                let (_, len) = huff_entry(s);
                if (len as usize) > total - pos {
                    return Err(HpackError::HuffmanDecodingError);
                }
                out.push(s as u8);
                pos = pos + len as usize;
                proof {
                    if let Some(t) = spec_decode_from(bits, pos as int) {
                        assert(out@.drop_last() + (seq![s as u8] + t) =~= out@ + t);
                    }
                }
            },
            None => {
                // possibly valid padding: at most seven one-bits
                if total - pos > 7 {
                    return Err(HpackError::HuffmanDecodingError);
                }
                let mut t: usize = pos;
                while t < total
                    invariant
                        pos <= t <= total,
                        total == 8 * input@.len(),
                        bits == spec_unpack(input@),
                        bits.len() == total,
                        forall|q: int| pos <= q < t ==> bits[q],
                    decreases total - t,
                {
                    if !get_bit(input, t) {
                        return Err(HpackError::HuffmanDecodingError);
                    }
                    t = t + 1;
                }
                proof {
                    assert(spec_decode_from(bits, pos as int) == Some(Seq::<u8>::empty()));
                    assert(out@ + Seq::<u8>::empty() =~= out@);
                }
                return Ok(out);
            },
        }
    }
    proof {
        assert(spec_decode_from(bits, pos as int) == Some(Seq::<u8>::empty()));
        assert(out@ + Seq::<u8>::empty() =~= out@);
    }
    Ok(out)
}

} // verus!
