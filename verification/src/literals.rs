//! Fixed byte strings of the file format and the resolution rules.
//!
//! Each constant exists twice: a spec-level sequence that contracts can
//! mention, and an executable builder proven to produce exactly it.

use vstd::prelude::*;

verus! {

/// `inode/directory` as a byte sequence.
pub open spec fn lit_inode_directory() -> Seq<u8> {
    seq![105, 110, 111, 100, 101, 47, 100, 105, 114, 101, 99, 116, 111, 114, 121]
}

/// `inode/directory` as a byte vector.
pub fn bytes_inode_directory() -> (r: Vec<u8>)
    ensures
        r@ == lit_inode_directory(),
{
    let r: Vec<u8> = vec![105, 110, 111, 100, 101, 47, 100, 105, 114, 101, 99, 116, 111, 114, 121];
    proof {
        assert(r@ =~= lit_inode_directory());
    }
    r
}

/// `x-scheme-handler/http` as a byte sequence.
pub open spec fn lit_x_scheme_handler_http() -> Seq<u8> {
    seq![120, 45, 115, 99, 104, 101, 109, 101, 45, 104, 97, 110, 100, 108, 101, 114, 47, 104, 116, 116, 112]
}

/// `x-scheme-handler/http` as a byte vector.
pub fn bytes_x_scheme_handler_http() -> (r: Vec<u8>)
    ensures
        r@ == lit_x_scheme_handler_http(),
{
    let r: Vec<u8> = vec![120, 45, 115, 99, 104, 101, 109, 101, 45, 104, 97, 110, 100, 108, 101, 114, 47, 104, 116, 116, 112];
    proof {
        assert(r@ =~= lit_x_scheme_handler_http());
    }
    r
}

/// `x-scheme-handler/https` as a byte sequence.
pub open spec fn lit_x_scheme_handler_https() -> Seq<u8> {
    seq![120, 45, 115, 99, 104, 101, 109, 101, 45, 104, 97, 110, 100, 108, 101, 114, 47, 104, 116, 116, 112, 115]
}

/// `x-scheme-handler/https` as a byte vector.
pub fn bytes_x_scheme_handler_https() -> (r: Vec<u8>)
    ensures
        r@ == lit_x_scheme_handler_https(),
{
    let r: Vec<u8> = vec![120, 45, 115, 99, 104, 101, 109, 101, 45, 104, 97, 110, 100, 108, 101, 114, 47, 104, 116, 116, 112, 115];
    proof {
        assert(r@ =~= lit_x_scheme_handler_https());
    }
    r
}

/// `x-scheme-handler/terminal` as a byte sequence.
pub open spec fn lit_x_scheme_handler_terminal() -> Seq<u8> {
    seq![120, 45, 115, 99, 104, 101, 109, 101, 45, 104, 97, 110, 100, 108, 101, 114, 47, 116, 101, 114, 109, 105, 110, 97, 108]
}

/// `x-scheme-handler/terminal` as a byte vector.
pub fn bytes_x_scheme_handler_terminal() -> (r: Vec<u8>)
    ensures
        r@ == lit_x_scheme_handler_terminal(),
{
    let r: Vec<u8> = vec![120, 45, 115, 99, 104, 101, 109, 101, 45, 104, 97, 110, 100, 108, 101, 114, 47, 116, 101, 114, 109, 105, 110, 97, 108];
    proof {
        assert(r@ =~= lit_x_scheme_handler_terminal());
    }
    r
}

/// `[Added Associations]` as a byte sequence.
pub open spec fn lit_added_associations_header() -> Seq<u8> {
    seq![91, 65, 100, 100, 101, 100, 32, 65, 115, 115, 111, 99, 105, 97, 116, 105, 111, 110, 115, 93]
}

/// `[Added Associations]` as a byte vector.
pub fn bytes_added_associations_header() -> (r: Vec<u8>)
    ensures
        r@ == lit_added_associations_header(),
{
    let r: Vec<u8> = vec![91, 65, 100, 100, 101, 100, 32, 65, 115, 115, 111, 99, 105, 97, 116, 105, 111, 110, 115, 93];
    proof {
        assert(r@ =~= lit_added_associations_header());
    }
    r
}

/// `[Default Applications]` as a byte sequence.
pub open spec fn lit_default_applications_header() -> Seq<u8> {
    seq![91, 68, 101, 102, 97, 117, 108, 116, 32, 65, 112, 112, 108, 105, 99, 97, 116, 105, 111, 110, 115, 93]
}

/// `[Default Applications]` as a byte vector.
pub fn bytes_default_applications_header() -> (r: Vec<u8>)
    ensures
        r@ == lit_default_applications_header(),
{
    let r: Vec<u8> = vec![91, 68, 101, 102, 97, 117, 108, 116, 32, 65, 112, 112, 108, 105, 99, 97, 116, 105, 111, 110, 115, 93];
    proof {
        assert(r@ =~= lit_default_applications_header());
    }
    r
}

/// `TerminalEmulator` as a byte sequence.
pub open spec fn lit_terminal_emulator_category() -> Seq<u8> {
    seq![84, 101, 114, 109, 105, 110, 97, 108, 69, 109, 117, 108, 97, 116, 111, 114]
}

/// `TerminalEmulator` as a byte vector.
pub fn bytes_terminal_emulator_category() -> (r: Vec<u8>)
    ensures
        r@ == lit_terminal_emulator_category(),
{
    let r: Vec<u8> = vec![84, 101, 114, 109, 105, 110, 97, 108, 69, 109, 117, 108, 97, 116, 111, 114];
    proof {
        assert(r@ =~= lit_terminal_emulator_category());
    }
    r
}

/// `file` as a byte sequence.
pub open spec fn lit_file_scheme() -> Seq<u8> {
    seq![102, 105, 108, 101]
}

/// `file` as a byte vector.
pub fn bytes_file_scheme() -> (r: Vec<u8>)
    ensures
        r@ == lit_file_scheme(),
{
    let r: Vec<u8> = vec![102, 105, 108, 101];
    proof {
        assert(r@ =~= lit_file_scheme());
    }
    r
}

/// `x-scheme-handler/` as a byte sequence.
pub open spec fn lit_x_scheme_handler_prefix() -> Seq<u8> {
    seq![120, 45, 115, 99, 104, 101, 109, 101, 45, 104, 97, 110, 100, 108, 101, 114, 47]
}

/// `x-scheme-handler/` as a byte vector.
pub fn bytes_x_scheme_handler_prefix() -> (r: Vec<u8>)
    ensures
        r@ == lit_x_scheme_handler_prefix(),
{
    let r: Vec<u8> = vec![120, 45, 115, 99, 104, 101, 109, 101, 45, 104, 97, 110, 100, 108, 101, 114, 47];
    proof {
        assert(r@ =~= lit_x_scheme_handler_prefix());
    }
    r
}

/// `rofi -dmenu -i -p 'Open With: '` as a byte sequence.
pub open spec fn lit_default_selector() -> Seq<u8> {
    seq![114, 111, 102, 105, 32, 45, 100, 109, 101, 110, 117, 32, 45, 105, 32, 45, 112, 32, 39, 79, 112, 101, 110, 32, 87, 105, 116, 104, 58, 32, 39]
}

/// `rofi -dmenu -i -p 'Open With: '` as a byte vector.
pub fn bytes_default_selector() -> (r: Vec<u8>)
    ensures
        r@ == lit_default_selector(),
{
    let r: Vec<u8> = vec![114, 111, 102, 105, 32, 45, 100, 109, 101, 110, 117, 32, 45, 105, 32, 45, 112, 32, 39, 79, 112, 101, 110, 32, 87, 105, 116, 104, 58, 32, 39];
    proof {
        assert(r@ =~= lit_default_selector());
    }
    r
}

/// `-e` as a byte sequence.
pub open spec fn lit_dash_e() -> Seq<u8> {
    seq![45, 101]
}

/// `-e` as a byte vector.
pub fn bytes_dash_e() -> (r: Vec<u8>)
    ensures
        r@ == lit_dash_e(),
{
    let r: Vec<u8> = vec![45, 101];
    proof {
        assert(r@ =~= lit_dash_e());
    }
    r
}

/// `application/octet-stream` as a byte sequence.
pub open spec fn lit_octet_stream() -> Seq<u8> {
    seq![97, 112, 112, 108, 105, 99, 97, 116, 105, 111, 110, 47, 111, 99, 116, 101, 116, 45, 115, 116, 114, 101, 97, 109]
}

/// `application/octet-stream` as a byte vector.
pub fn bytes_octet_stream() -> (r: Vec<u8>)
    ensures
        r@ == lit_octet_stream(),
{
    let r: Vec<u8> = vec![97, 112, 112, 108, 105, 99, 97, 116, 105, 111, 110, 47, 111, 99, 116, 101, 116, 45, 115, 116, 114, 101, 97, 109];
    proof {
        assert(r@ =~= lit_octet_stream());
    }
    r
}

/// `application/x-zerosize` as a byte sequence.
pub open spec fn lit_zerosize() -> Seq<u8> {
    seq![97, 112, 112, 108, 105, 99, 97, 116, 105, 111, 110, 47, 120, 45, 122, 101, 114, 111, 115, 105, 122, 101]
}

/// `application/x-zerosize` as a byte vector.
pub fn bytes_zerosize() -> (r: Vec<u8>)
    ensures
        r@ == lit_zerosize(),
{
    let r: Vec<u8> = vec![97, 112, 112, 108, 105, 99, 97, 116, 105, 111, 110, 47, 120, 45, 122, 101, 114, 111, 115, 105, 122, 101];
    proof {
        assert(r@ =~= lit_zerosize());
    }
    r
}

/// `,\n` as a byte sequence.
pub open spec fn lit_separator_terminal() -> Seq<u8> {
    seq![44, 10]
}

/// `,\n` as a byte vector.
pub fn bytes_separator_terminal() -> (r: Vec<u8>)
    ensures
        r@ == lit_separator_terminal(),
{
    let r: Vec<u8> = vec![44, 10];
    proof {
        assert(r@ =~= lit_separator_terminal());
    }
    r
}

/// `, ` as a byte sequence.
pub open spec fn lit_separator_piped() -> Seq<u8> {
    seq![44, 32]
}

/// `, ` as a byte vector.
pub fn bytes_separator_piped() -> (r: Vec<u8>)
    ensures
        r@ == lit_separator_piped(),
{
    let r: Vec<u8> = vec![44, 32];
    proof {
        assert(r@ =~= lit_separator_piped());
    }
    r
}

/// `.desktop` as a byte sequence.
pub open spec fn lit_desktop_suffix() -> Seq<u8> {
    seq![46, 100, 101, 115, 107, 116, 111, 112]
}

/// `.desktop` as a byte vector.
pub fn bytes_desktop_suffix() -> (r: Vec<u8>)
    ensures
        r@ == lit_desktop_suffix(),
{
    let r: Vec<u8> = vec![46, 100, 101, 115, 107, 116, 111, 112];
    proof {
        assert(r@ =~= lit_desktop_suffix());
    }
    r
}

} // verus!
