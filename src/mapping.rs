//! Channel-name remapping given as `from1=to1,from2=to2`.

use vstd::prelude::*;
use crate::model::{channels_view, Channel, ChannelView};
use crate::text::{chars_eq, chars_of, split_chars, split_on, string_of, trim, trim_chars, views};

verus! {

/// The index of the first `c` in `s`.
pub open spec fn first_index(s: Seq<char>, c: char) -> Option<nat>
    decreases s.len(),
{
    if s.len() == 0 {
        None
    } else if s[0] == c {
        Some(0)
    } else {
        match first_index(s.skip(1), c) {
            Some(i) => Some(i + 1),
            None => None,
        }
    }
}

pub open spec fn shifted(o: Option<nat>, by: nat) -> Option<nat> {
    match o {
        Some(i) => Some(i + by),
        None => None,
    }
}

proof fn lemma_first_index_bound(s: Seq<char>, c: char)
    ensures
        first_index(s, c) matches Some(i) ==> i < s.len() && s[i as int] == c,
    decreases s.len(),
{
    if s.len() > 0 && s[0] != c {
        lemma_first_index_bound(s.skip(1), c);
    }
}

fn find_char(s: &[char], c: char) -> (r: Option<usize>)
    ensures
        match r {
            Some(i) => first_index(s@, c) == Some(i as nat) && i < s@.len(),
            None => first_index(s@, c) == None::<nat>,
        },
{
    let mut i: usize = 0;
    assert(s@.skip(0) =~= s@);
    while i < s.len()
        invariant
            i <= s@.len(),
            first_index(s@, c) == shifted(first_index(s@.skip(i as int), c), i as nat),
        decreases s.len() - i,
    {
        assert(s@.skip(i as int)[0] == s@[i as int]);
        if s[i] == c {
            return Some(i);
        }
        assert(s@.skip(i as int).skip(1) =~= s@.skip(i + 1));
        i = i + 1;
    }
    None
}

/// The pair a piece gives: the trimmed text before its first `=` and the
/// trimmed text after it; none when it has no `=`.
pub open spec fn pair_of(piece: Seq<char>) -> Option<(Seq<char>, Seq<char>)> {
    match first_index(piece, '=') {
        Some(i) => Some((trim(piece.take(i as int)), trim(piece.skip(i as int + 1)))),
        None => None,
    }
}

/// The pairs of a sequence of pieces, in order.
pub open spec fn pairs_of(pieces: Seq<Seq<char>>) -> Seq<(Seq<char>, Seq<char>)>
    decreases pieces.len(),
{
    if pieces.len() == 0 {
        Seq::empty()
    } else {
        match pair_of(pieces.last()) {
            Some(p) => pairs_of(pieces.drop_last()).push(p),
            None => pairs_of(pieces.drop_last()),
        }
    }
}

/// The pairs of a mapping text, in the order written: its `,`-separated
/// pieces that hold an `=`.
pub open spec fn mapping_of(s: Seq<char>) -> Seq<(Seq<char>, Seq<char>)> {
    pairs_of(split_on(s, seq![',']))
}

pub open spec fn pairs_view(v: Seq<(String, String)>) -> Seq<(Seq<char>, Seq<char>)> {
    v.map_values(|p: (String, String)| (p.0@, p.1@))
}

/// The target of `name`: that of the last pair that names it, as a map built
/// by inserting the pairs in order holds it.
pub open spec fn mapped(pairs: Seq<(Seq<char>, Seq<char>)>, name: Seq<char>) -> Option<Seq<char>>
    decreases pairs.len(),
{
    if pairs.len() == 0 {
        None
    } else if pairs.last().0 == name {
        Some(pairs.last().1)
    } else {
        mapped(pairs.drop_last(), name)
    }
}

/// The `from=to` pairs of a mapping text, in the order written.
pub fn parse_channel_mapping(mapping_str: &str) -> (r: Vec<(String, String)>)
    ensures
        pairs_view(r@) == mapping_of(mapping_str@),
{
    let s = chars_of(mapping_str);
    let comma: Vec<char> = vec![','];
    assert(comma@ =~= seq![',']);
    let pieces = split_chars(s.as_slice(), comma.as_slice());
    let ghost ps = views(pieces@);
    let mut out: Vec<(String, String)> = Vec::new();
    let mut i: usize = 0;
    assert(ps.take(0) =~= Seq::<Seq<char>>::empty());
    assert(pairs_view(out@) =~= Seq::<(Seq<char>, Seq<char>)>::empty());
    while i < pieces.len()
        invariant
            i <= pieces@.len(),
            ps == views(pieces@),
            pairs_view(out@) == pairs_of(ps.take(i as int)),
        decreases pieces.len() - i,
    {
        let ghost pre = ps.take(i as int + 1);
        assert(pre.drop_last() =~= ps.take(i as int));
        let piece = pieces[i].as_slice();
        assert(pre.last() == piece@);
        match find_char(piece, '=') {
            Some(k) => {
                let mut from: Vec<char> = Vec::new();
                let mut j: usize = 0;
                while j < k
                    invariant
                        j <= k < piece@.len(),
                        from@ == piece@.take(j as int),
                    decreases k - j,
                {
                    from.push(piece[j]);
                    j = j + 1;
                    assert(from@ =~= piece@.take(j as int));
                }
                let mut to: Vec<char> = Vec::new();
                assert(k < piece.len());
                let mut j: usize = k + 1;
                while j < piece.len()
                    invariant
                        k + 1 <= j <= piece@.len(),
                        to@ == piece@.subrange(k + 1, j as int),
                    decreases piece.len() - j,
                {
                    to.push(piece[j]);
                    j = j + 1;
                    assert(to@ =~= piece@.subrange(k + 1, j as int));
                }
                assert(to@ =~= piece@.skip(k + 1));
                let f = string_of(trim_chars(from.as_slice()).as_slice());
                let t = string_of(trim_chars(to.as_slice()).as_slice());
                let ghost before = pairs_view(out@);
                let ghost pv = (f@, t@);
                out.push((f, t));
                assert(pairs_view(out@) =~= before.push(pv));
            },
            None => {},
        }
        i = i + 1;
    }
    assert(ps.take(i as int) =~= ps);
    out
}

fn lookup_mapping(mapping: &Vec<(String, String)>, name: &str) -> (r: Option<String>)
    ensures
        match r {
            Some(v) => mapped(pairs_view(mapping@), name@) == Some(v@),
            None => mapped(pairs_view(mapping@), name@) == None::<Seq<char>>,
        },
{
    let mut i: usize = mapping.len();
    let ghost pv = pairs_view(mapping@);
    assert(pv.take(pv.len() as int) =~= pv);
    let key = chars_of(name);
    while i > 0
        invariant
            i <= mapping@.len(),
            pv == pairs_view(mapping@),
            key@ == name@,
            mapped(pv, name@) == mapped(pv.take(i as int), name@),
        decreases i,
    {
        let ghost pre = pv.take(i as int);
        assert(pre.drop_last() =~= pv.take(i - 1));
        assert(pre.last() == (mapping@[i - 1].0@, mapping@[i - 1].1@));
        let from = chars_of(mapping[i - 1].0.as_str());
        if chars_eq(from.as_slice(), key.as_slice()) {
            return Some(mapping[i - 1].1.clone());
        }
        i = i - 1;
    }
    None
}

/// The name a channel is mapped to, or its own name when no pair names it.
pub fn get_mapped_channel_name(channel_name: &str, mapping: &Vec<(String, String)>) -> (r: String)
    ensures
        r@ == match mapped(pairs_view(mapping@), channel_name@) {
            Some(v) => v,
            None => channel_name@,
        },
{
    match lookup_mapping(mapping, channel_name) {
        Some(v) => v,
        None => string_of(chars_of(channel_name).as_slice()),
    }
}

/// The id of the first channel named `name`.
pub open spec fn id_of_name(channels: Seq<ChannelView>, name: Seq<char>) -> Option<u64>
    decreases channels.len(),
{
    if channels.len() == 0 {
        None
    } else if channels[0].name == name {
        Some(channels[0].id)
    } else {
        id_of_name(channels.skip(1), name)
    }
}

/// The id of the channel that `channel_name` is mapped to: that of the first
/// channel bearing the mapped name, or 0 when there is no mapping for it or no
/// channel of that name.
pub fn find_mapped_channel_id(
    channel_name: &str,
    channels: &[Channel],
    mapping: &Vec<(String, String)>,
) -> (r: u64)
    ensures
        r == match mapped(pairs_view(mapping@), channel_name@) {
            Some(m) => match id_of_name(channels_view(channels@), m) {
                Some(id) => id,
                None => 0,
            },
            None => 0,
        },
{
    match lookup_mapping(mapping, channel_name) {
        Some(target) => {
            let ghost cv = channels_view(channels@);
            let mut i: usize = 0;
            assert(cv.skip(0) =~= cv);
            while i < channels.len()
                invariant
                    i <= channels@.len(),
                    cv == channels_view(channels@),
                    mapped(pairs_view(mapping@), channel_name@) == Some(target@),
                    id_of_name(cv, target@) == id_of_name(cv.skip(i as int), target@),
                decreases channels.len() - i,
            {
                assert(cv.skip(i as int)[0] == channels@[i as int]@);
                assert(cv.skip(i as int).skip(1) =~= cv.skip(i + 1));
                if channels[i].name == target {
                    assert(cv.skip(i as int)[0].name == target@);
                    assert(cv.skip(i as int).len() > 0);
                    assert(id_of_name(cv.skip(i as int), target@) == Some(channels@[i as int].id));
                    return channels[i].id;
                }
                i = i + 1;
            }
            assert(cv.skip(i as int) =~= Seq::<ChannelView>::empty());
            0
        },
        None => 0,
    }
}

/// The target of channel `id` under id remapping: that of the last pair from `id`.
pub open spec fn id_target(pairs: Seq<(u64, u64)>, id: u64) -> Option<u64>
    decreases pairs.len(),
{
    if pairs.len() == 0 {
        None
    } else if pairs.last().0 == id {
        Some(pairs.last().1)
    } else {
        id_target(pairs.drop_last(), id)
    }
}

/// Some pair maps another channel onto channel `id`.
pub open spec fn is_target(pairs: Seq<(u64, u64)>, id: u64) -> bool {
    exists|k: int| 0 <= k < pairs.len() && #[trigger] pairs[k].1 == id
}

/// The index of the first channel with id `id`.
pub open spec fn index_of_id(channels: Seq<ChannelView>, id: u64) -> Option<nat>
    decreases channels.len(),
{
    if channels.len() == 0 {
        None
    } else if channels[0].id == id {
        Some(0)
    } else {
        shifted(index_of_id(channels.skip(1), id), 1)
    }
}

/// The index of the first channel named `name`.
pub open spec fn index_of_name(channels: Seq<ChannelView>, name: Seq<char>) -> Option<nat>
    decreases channels.len(),
{
    if channels.len() == 0 {
        None
    } else if channels[0].name == name {
        Some(0)
    } else {
        shifted(index_of_name(channels.skip(1), name), 1)
    }
}

/// `j`, when that channel has programs.
pub open spec fn with_programs(channels: Seq<ChannelView>, j: Option<nat>) -> Option<nat> {
    match j {
        Some(k) => if k < channels.len() && channels[k as int].epg.len() > 0 {
            Some(k)
        } else {
            None
        },
        None => None,
    }
}

/// The channel whose programs the guide lists under channel `i`. A channel
/// that others are remapped onto lists its own; one remapped by id onto
/// another lists that one's; failing both, a channel remapped by name lists
/// that of the first channel of the mapped name; failing all, its own. A
/// choice is taken only where that channel has programs.
pub open spec fn guide_source(
    channels: Seq<ChannelView>,
    id_pairs: Seq<(u64, u64)>,
    name_pairs: Seq<(Seq<char>, Seq<char>)>,
    i: nat,
) -> Option<nat> {
    let c = channels[i as int];
    let by_id = if is_target(id_pairs, c.id) {
        with_programs(channels, Some(i))
    } else {
        match id_target(id_pairs, c.id) {
            Some(t) => with_programs(channels, index_of_id(channels, t)),
            None => None,
        }
    };
    let by_name = match mapped(name_pairs, c.name) {
        Some(m) => with_programs(channels, index_of_name(channels, m)),
        None => None,
    };
    if by_id is Some {
        by_id
    } else if by_name is Some {
        by_name
    } else {
        with_programs(channels, Some(i))
    }
}

fn find_id_target(pairs: &Vec<(u64, u64)>, id: u64) -> (r: Option<u64>)
    ensures
        r == id_target(pairs@, id),
{
    let mut i: usize = pairs.len();
    assert(pairs@.take(pairs@.len() as int) =~= pairs@);
    while i > 0
        invariant
            i <= pairs@.len(),
            id_target(pairs@, id) == id_target(pairs@.take(i as int), id),
        decreases i,
    {
        assert(pairs@.take(i as int).drop_last() =~= pairs@.take(i - 1));
        if pairs[i - 1].0 == id {
            return Some(pairs[i - 1].1);
        }
        i = i - 1;
    }
    None
}

fn targeted(pairs: &Vec<(u64, u64)>, id: u64) -> (r: bool)
    ensures
        r == is_target(pairs@, id),
{
    let mut i: usize = 0;
    while i < pairs.len()
        invariant
            i <= pairs@.len(),
            forall|k: int| 0 <= k < i ==> #[trigger] pairs@[k].1 != id,
        decreases pairs.len() - i,
    {
        if pairs[i].1 == id {
            return true;
        }
        i = i + 1;
    }
    false
}

fn find_id(channels: &[Channel], id: u64) -> (r: Option<usize>)
    ensures
        match r {
            Some(j) => index_of_id(channels_view(channels@), id) == Some(j as nat),
            None => index_of_id(channels_view(channels@), id) == None::<nat>,
        },
{
    let ghost cv = channels_view(channels@);
    let mut i: usize = 0;
    assert(cv.skip(0) =~= cv);
    while i < channels.len()
        invariant
            i <= channels@.len(),
            cv == channels_view(channels@),
            index_of_id(cv, id) == shifted(index_of_id(cv.skip(i as int), id), i as nat),
        decreases channels.len() - i,
    {
        assert(cv.skip(i as int)[0] == channels@[i as int]@);
        assert(cv.skip(i as int).skip(1) =~= cv.skip(i + 1));
        if channels[i].id == id {
            return Some(i);
        }
        i = i + 1;
    }
    assert(cv.skip(i as int) =~= Seq::<ChannelView>::empty());
    None
}

fn find_name(channels: &[Channel], name: &String) -> (r: Option<usize>)
    ensures
        match r {
            Some(j) => index_of_name(channels_view(channels@), name@) == Some(j as nat),
            None => index_of_name(channels_view(channels@), name@) == None::<nat>,
        },
{
    let ghost cv = channels_view(channels@);
    let mut i: usize = 0;
    assert(cv.skip(0) =~= cv);
    while i < channels.len()
        invariant
            i <= channels@.len(),
            cv == channels_view(channels@),
            index_of_name(cv, name@) == shifted(index_of_name(cv.skip(i as int), name@), i as nat),
        decreases channels.len() - i,
    {
        assert(cv.skip(i as int)[0] == channels@[i as int]@);
        assert(cv.skip(i as int).skip(1) =~= cv.skip(i + 1));
        if channels[i].name == *name {
            return Some(i);
        }
        i = i + 1;
    }
    assert(cv.skip(i as int) =~= Seq::<ChannelView>::empty());
    None
}

fn if_programs(channels: &[Channel], j: Option<usize>) -> (r: Option<usize>)
    ensures
        match r {
            Some(k) => with_programs(channels_view(channels@), opt_nat(j)) == Some(k as nat),
            None => with_programs(channels_view(channels@), opt_nat(j)) == None::<nat>,
        },
{
    match j {
        Some(k) => if k < channels.len() && channels[k].epg.len() > 0 {
            Some(k)
        } else {
            None
        },
        None => None,
    }
}

pub open spec fn opt_nat(j: Option<usize>) -> Option<nat> {
    match j {
        Some(k) => Some(k as nat),
        None => None,
    }
}

/// The channel whose programs the guide lists under channel `index`.
pub fn guide_source_of(
    channels: &[Channel],
    id_mappings: &Vec<(u64, u64)>,
    name_mapping: &Vec<(String, String)>,
    index: usize,
) -> (r: Option<usize>)
    requires
        index < channels@.len(),
    ensures
        opt_nat(r) == guide_source(
            channels_view(channels@),
            id_mappings@,
            pairs_view(name_mapping@),
            index as nat,
        ),
{
    let ghost cv = channels_view(channels@);
    assert(cv[index as int] == channels@[index as int]@);
    let c = &channels[index];
    let by_id = if targeted(id_mappings, c.id) {
        if_programs(channels, Some(index))
    } else {
        match find_id_target(id_mappings, c.id) {
            Some(t) => if_programs(channels, find_id(channels, t)),
            None => None,
        }
    };
    if by_id.is_some() {
        return by_id;
    }
    let by_name = match lookup_mapping(name_mapping, c.name.as_str()) {
        Some(m) => if_programs(channels, find_name(channels, &m)),
        None => None,
    };
    if by_name.is_some() {
        return by_name;
    }
    if_programs(channels, Some(index))
}

/// The id whose logo a channel shows: its id-remapping target, else the id of
/// its name-remapping target, else its own id.
pub open spec fn logo_id_of(
    channels: Seq<ChannelView>,
    id_pairs: Seq<(u64, u64)>,
    name_pairs: Seq<(Seq<char>, Seq<char>)>,
    i: nat,
) -> u64 {
    let c = channels[i as int];
    let mapped_id = match id_target(id_pairs, c.id) {
        Some(t) => t,
        None => match mapped(name_pairs, c.name) {
            Some(m) => match id_of_name(channels, m) {
                Some(id) => id,
                None => 0,
            },
            None => 0,
        },
    };
    if mapped_id != 0 {
        mapped_id
    } else {
        c.id
    }
}

/// The id whose logo channel `index` shows.
pub fn logo_id(
    channels: &[Channel],
    id_mappings: &Vec<(u64, u64)>,
    name_mapping: &Vec<(String, String)>,
    index: usize,
) -> (r: u64)
    requires
        index < channels@.len(),
    ensures
        r == logo_id_of(channels_view(channels@), id_mappings@, pairs_view(name_mapping@), index as nat),
{
    let ghost cv = channels_view(channels@);
    assert(cv[index as int] == channels@[index as int]@);
    let c = &channels[index];
    let mapped_id = match find_id_target(id_mappings, c.id) {
        Some(t) => t,
        None => find_mapped_channel_id(c.name.as_str(), channels, name_mapping),
    };
    if mapped_id != 0 {
        mapped_id
    } else {
        c.id
    }
}

} // verus!
