//! The dictionary keys the typed mapping layer recognises, as byte strings:
//! each key once as a specification-level sequence and once as an executable
//! value proved equal to it.

use vstd::prelude::*;

verus! {
/// The key `"announce"`.
pub open spec fn key_announce() -> Seq<u8> {
    seq![97u8, 110u8, 110u8, 111u8, 117u8, 110u8, 99u8, 101u8]
}

pub fn key_announce_bytes() -> (r: Vec<u8>)
    ensures
        r@ == key_announce(),
{
    let mut v: Vec<u8> = Vec::new();
    v.push(97);
    v.push(110);
    v.push(110);
    v.push(111);
    v.push(117);
    v.push(110);
    v.push(99);
    v.push(101);
    proof {
        assert(v@ =~= key_announce());
    }
    v
}

/// The key `"announce-list"`.
pub open spec fn key_announce_list() -> Seq<u8> {
    seq![97u8, 110u8, 110u8, 111u8, 117u8, 110u8, 99u8, 101u8, 45u8, 108u8, 105u8, 115u8, 116u8]
}

pub fn key_announce_list_bytes() -> (r: Vec<u8>)
    ensures
        r@ == key_announce_list(),
{
    let mut v: Vec<u8> = Vec::new();
    v.push(97);
    v.push(110);
    v.push(110);
    v.push(111);
    v.push(117);
    v.push(110);
    v.push(99);
    v.push(101);
    v.push(45);
    v.push(108);
    v.push(105);
    v.push(115);
    v.push(116);
    proof {
        assert(v@ =~= key_announce_list());
    }
    v
}

/// The key `"comment"`.
pub open spec fn key_comment() -> Seq<u8> {
    seq![99u8, 111u8, 109u8, 109u8, 101u8, 110u8, 116u8]
}

pub fn key_comment_bytes() -> (r: Vec<u8>)
    ensures
        r@ == key_comment(),
{
    let mut v: Vec<u8> = Vec::new();
    v.push(99);
    v.push(111);
    v.push(109);
    v.push(109);
    v.push(101);
    v.push(110);
    v.push(116);
    proof {
        assert(v@ =~= key_comment());
    }
    v
}

/// The key `"created by"`.
pub open spec fn key_created_by() -> Seq<u8> {
    seq![99u8, 114u8, 101u8, 97u8, 116u8, 101u8, 100u8, 32u8, 98u8, 121u8]
}

pub fn key_created_by_bytes() -> (r: Vec<u8>)
    ensures
        r@ == key_created_by(),
{
    let mut v: Vec<u8> = Vec::new();
    v.push(99);
    v.push(114);
    v.push(101);
    v.push(97);
    v.push(116);
    v.push(101);
    v.push(100);
    v.push(32);
    v.push(98);
    v.push(121);
    proof {
        assert(v@ =~= key_created_by());
    }
    v
}

/// The key `"creation date"`.
pub open spec fn key_creation_date() -> Seq<u8> {
    seq![99u8, 114u8, 101u8, 97u8, 116u8, 105u8, 111u8, 110u8, 32u8, 100u8, 97u8, 116u8, 101u8]
}

pub fn key_creation_date_bytes() -> (r: Vec<u8>)
    ensures
        r@ == key_creation_date(),
{
    let mut v: Vec<u8> = Vec::new();
    v.push(99);
    v.push(114);
    v.push(101);
    v.push(97);
    v.push(116);
    v.push(105);
    v.push(111);
    v.push(110);
    v.push(32);
    v.push(100);
    v.push(97);
    v.push(116);
    v.push(101);
    proof {
        assert(v@ =~= key_creation_date());
    }
    v
}

/// The key `"encoding"`.
pub open spec fn key_encoding() -> Seq<u8> {
    seq![101u8, 110u8, 99u8, 111u8, 100u8, 105u8, 110u8, 103u8]
}

pub fn key_encoding_bytes() -> (r: Vec<u8>)
    ensures
        r@ == key_encoding(),
{
    let mut v: Vec<u8> = Vec::new();
    v.push(101);
    v.push(110);
    v.push(99);
    v.push(111);
    v.push(100);
    v.push(105);
    v.push(110);
    v.push(103);
    proof {
        assert(v@ =~= key_encoding());
    }
    v
}

/// The key `"httpseeds"`.
pub open spec fn key_httpseeds() -> Seq<u8> {
    seq![104u8, 116u8, 116u8, 112u8, 115u8, 101u8, 101u8, 100u8, 115u8]
}

pub fn key_httpseeds_bytes() -> (r: Vec<u8>)
    ensures
        r@ == key_httpseeds(),
{
    let mut v: Vec<u8> = Vec::new();
    v.push(104);
    v.push(116);
    v.push(116);
    v.push(112);
    v.push(115);
    v.push(101);
    v.push(101);
    v.push(100);
    v.push(115);
    proof {
        assert(v@ =~= key_httpseeds());
    }
    v
}

/// The key `"info"`.
pub open spec fn key_info() -> Seq<u8> {
    seq![105u8, 110u8, 102u8, 111u8]
}

pub fn key_info_bytes() -> (r: Vec<u8>)
    ensures
        r@ == key_info(),
{
    let mut v: Vec<u8> = Vec::new();
    v.push(105);
    v.push(110);
    v.push(102);
    v.push(111);
    proof {
        assert(v@ =~= key_info());
    }
    v
}

/// The key `"url-list"`.
pub open spec fn key_url_list() -> Seq<u8> {
    seq![117u8, 114u8, 108u8, 45u8, 108u8, 105u8, 115u8, 116u8]
}

pub fn key_url_list_bytes() -> (r: Vec<u8>)
    ensures
        r@ == key_url_list(),
{
    let mut v: Vec<u8> = Vec::new();
    v.push(117);
    v.push(114);
    v.push(108);
    v.push(45);
    v.push(108);
    v.push(105);
    v.push(115);
    v.push(116);
    proof {
        assert(v@ =~= key_url_list());
    }
    v
}

/// The key `"name"`.
pub open spec fn key_name() -> Seq<u8> {
    seq![110u8, 97u8, 109u8, 101u8]
}

pub fn key_name_bytes() -> (r: Vec<u8>)
    ensures
        r@ == key_name(),
{
    let mut v: Vec<u8> = Vec::new();
    v.push(110);
    v.push(97);
    v.push(109);
    v.push(101);
    proof {
        assert(v@ =~= key_name());
    }
    v
}

/// The key `"piece length"`.
pub open spec fn key_piece_length() -> Seq<u8> {
    seq![112u8, 105u8, 101u8, 99u8, 101u8, 32u8, 108u8, 101u8, 110u8, 103u8, 116u8, 104u8]
}

pub fn key_piece_length_bytes() -> (r: Vec<u8>)
    ensures
        r@ == key_piece_length(),
{
    let mut v: Vec<u8> = Vec::new();
    v.push(112);
    v.push(105);
    v.push(101);
    v.push(99);
    v.push(101);
    v.push(32);
    v.push(108);
    v.push(101);
    v.push(110);
    v.push(103);
    v.push(116);
    v.push(104);
    proof {
        assert(v@ =~= key_piece_length());
    }
    v
}

/// The key `"pieces"`.
pub open spec fn key_pieces() -> Seq<u8> {
    seq![112u8, 105u8, 101u8, 99u8, 101u8, 115u8]
}

pub fn key_pieces_bytes() -> (r: Vec<u8>)
    ensures
        r@ == key_pieces(),
{
    let mut v: Vec<u8> = Vec::new();
    v.push(112);
    v.push(105);
    v.push(101);
    v.push(99);
    v.push(101);
    v.push(115);
    proof {
        assert(v@ =~= key_pieces());
    }
    v
}

/// The key `"private"`.
pub open spec fn key_private() -> Seq<u8> {
    seq![112u8, 114u8, 105u8, 118u8, 97u8, 116u8, 101u8]
}

pub fn key_private_bytes() -> (r: Vec<u8>)
    ensures
        r@ == key_private(),
{
    let mut v: Vec<u8> = Vec::new();
    v.push(112);
    v.push(114);
    v.push(105);
    v.push(118);
    v.push(97);
    v.push(116);
    v.push(101);
    proof {
        assert(v@ =~= key_private());
    }
    v
}

/// The key `"source"`.
pub open spec fn key_source() -> Seq<u8> {
    seq![115u8, 111u8, 117u8, 114u8, 99u8, 101u8]
}

pub fn key_source_bytes() -> (r: Vec<u8>)
    ensures
        r@ == key_source(),
{
    let mut v: Vec<u8> = Vec::new();
    v.push(115);
    v.push(111);
    v.push(117);
    v.push(114);
    v.push(99);
    v.push(101);
    proof {
        assert(v@ =~= key_source());
    }
    v
}

/// The key `"length"`.
pub open spec fn key_length() -> Seq<u8> {
    seq![108u8, 101u8, 110u8, 103u8, 116u8, 104u8]
}

pub fn key_length_bytes() -> (r: Vec<u8>)
    ensures
        r@ == key_length(),
{
    let mut v: Vec<u8> = Vec::new();
    v.push(108);
    v.push(101);
    v.push(110);
    v.push(103);
    v.push(116);
    v.push(104);
    proof {
        assert(v@ =~= key_length());
    }
    v
}

/// The key `"md5sum"`.
pub open spec fn key_md5sum() -> Seq<u8> {
    seq![109u8, 100u8, 53u8, 115u8, 117u8, 109u8]
}

pub fn key_md5sum_bytes() -> (r: Vec<u8>)
    ensures
        r@ == key_md5sum(),
{
    let mut v: Vec<u8> = Vec::new();
    v.push(109);
    v.push(100);
    v.push(53);
    v.push(115);
    v.push(117);
    v.push(109);
    proof {
        assert(v@ =~= key_md5sum());
    }
    v
}

/// The key `"files"`.
pub open spec fn key_files() -> Seq<u8> {
    seq![102u8, 105u8, 108u8, 101u8, 115u8]
}

pub fn key_files_bytes() -> (r: Vec<u8>)
    ensures
        r@ == key_files(),
{
    let mut v: Vec<u8> = Vec::new();
    v.push(102);
    v.push(105);
    v.push(108);
    v.push(101);
    v.push(115);
    proof {
        assert(v@ =~= key_files());
    }
    v
}

/// The key `"path"`.
pub open spec fn key_path() -> Seq<u8> {
    seq![112u8, 97u8, 116u8, 104u8]
}

pub fn key_path_bytes() -> (r: Vec<u8>)
    ensures
        r@ == key_path(),
{
    let mut v: Vec<u8> = Vec::new();
    v.push(112);
    v.push(97);
    v.push(116);
    v.push(104);
    proof {
        assert(v@ =~= key_path());
    }
    v
}

/// The key `"interval"`.
pub open spec fn key_interval() -> Seq<u8> {
    seq![105u8, 110u8, 116u8, 101u8, 114u8, 118u8, 97u8, 108u8]
}

pub fn key_interval_bytes() -> (r: Vec<u8>)
    ensures
        r@ == key_interval(),
{
    let mut v: Vec<u8> = Vec::new();
    v.push(105);
    v.push(110);
    v.push(116);
    v.push(101);
    v.push(114);
    v.push(118);
    v.push(97);
    v.push(108);
    proof {
        assert(v@ =~= key_interval());
    }
    v
}

/// The key `"peers"`.
pub open spec fn key_peers() -> Seq<u8> {
    seq![112u8, 101u8, 101u8, 114u8, 115u8]
}

pub fn key_peers_bytes() -> (r: Vec<u8>)
    ensures
        r@ == key_peers(),
{
    let mut v: Vec<u8> = Vec::new();
    v.push(112);
    v.push(101);
    v.push(101);
    v.push(114);
    v.push(115);
    proof {
        assert(v@ =~= key_peers());
    }
    v
}

/// The key `"peers6"`.
pub open spec fn key_peers6() -> Seq<u8> {
    seq![112u8, 101u8, 101u8, 114u8, 115u8, 54u8]
}

pub fn key_peers6_bytes() -> (r: Vec<u8>)
    ensures
        r@ == key_peers6(),
{
    let mut v: Vec<u8> = Vec::new();
    v.push(112);
    v.push(101);
    v.push(101);
    v.push(114);
    v.push(115);
    v.push(54);
    proof {
        assert(v@ =~= key_peers6());
    }
    v
}

/// The key `"ip"`.
pub open spec fn key_ip() -> Seq<u8> {
    seq![105u8, 112u8]
}

pub fn key_ip_bytes() -> (r: Vec<u8>)
    ensures
        r@ == key_ip(),
{
    let mut v: Vec<u8> = Vec::new();
    v.push(105);
    v.push(112);
    proof {
        assert(v@ =~= key_ip());
    }
    v
}

/// The key `"port"`.
pub open spec fn key_port() -> Seq<u8> {
    seq![112u8, 111u8, 114u8, 116u8]
}

pub fn key_port_bytes() -> (r: Vec<u8>)
    ensures
        r@ == key_port(),
{
    let mut v: Vec<u8> = Vec::new();
    v.push(112);
    v.push(111);
    v.push(114);
    v.push(116);
    proof {
        assert(v@ =~= key_port());
    }
    v
}

/// The key `"m"`.
pub open spec fn key_m() -> Seq<u8> {
    seq![109u8]
}

pub fn key_m_bytes() -> (r: Vec<u8>)
    ensures
        r@ == key_m(),
{
    let mut v: Vec<u8> = Vec::new();
    v.push(109);
    proof {
        assert(v@ =~= key_m());
    }
    v
}

/// The key `"p"`.
pub open spec fn key_p() -> Seq<u8> {
    seq![112u8]
}

pub fn key_p_bytes() -> (r: Vec<u8>)
    ensures
        r@ == key_p(),
{
    let mut v: Vec<u8> = Vec::new();
    v.push(112);
    proof {
        assert(v@ =~= key_p());
    }
    v
}

/// The key `"v"`.
pub open spec fn key_v() -> Seq<u8> {
    seq![118u8]
}

pub fn key_v_bytes() -> (r: Vec<u8>)
    ensures
        r@ == key_v(),
{
    let mut v: Vec<u8> = Vec::new();
    v.push(118);
    proof {
        assert(v@ =~= key_v());
    }
    v
}

/// The key `"yourip"`.
pub open spec fn key_yourip() -> Seq<u8> {
    seq![121u8, 111u8, 117u8, 114u8, 105u8, 112u8]
}

pub fn key_yourip_bytes() -> (r: Vec<u8>)
    ensures
        r@ == key_yourip(),
{
    let mut v: Vec<u8> = Vec::new();
    v.push(121);
    v.push(111);
    v.push(117);
    v.push(114);
    v.push(105);
    v.push(112);
    proof {
        assert(v@ =~= key_yourip());
    }
    v
}

/// The key `"reqq"`.
pub open spec fn key_reqq() -> Seq<u8> {
    seq![114u8, 101u8, 113u8, 113u8]
}

pub fn key_reqq_bytes() -> (r: Vec<u8>)
    ensures
        r@ == key_reqq(),
{
    let mut v: Vec<u8> = Vec::new();
    v.push(114);
    v.push(101);
    v.push(113);
    v.push(113);
    proof {
        assert(v@ =~= key_reqq());
    }
    v
}

/// The key `"metadata_size"`.
pub open spec fn key_metadata_size() -> Seq<u8> {
    seq![109u8, 101u8, 116u8, 97u8, 100u8, 97u8, 116u8, 97u8, 95u8, 115u8, 105u8, 122u8, 101u8]
}

pub fn key_metadata_size_bytes() -> (r: Vec<u8>)
    ensures
        r@ == key_metadata_size(),
{
    let mut v: Vec<u8> = Vec::new();
    v.push(109);
    v.push(101);
    v.push(116);
    v.push(97);
    v.push(100);
    v.push(97);
    v.push(116);
    v.push(97);
    v.push(95);
    v.push(115);
    v.push(105);
    v.push(122);
    v.push(101);
    proof {
        assert(v@ =~= key_metadata_size());
    }
    v
}

} // verus!
