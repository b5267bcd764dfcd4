//! The demo server's routing surface.
//!
//! Three route groups, each closing over its own context — the
//! host-identity snapshot, the constant benchmark payload, and no context
//! at all — merged into one dispatch table. The contract pins every
//! binding the surface has, and that it has no others.

use vstd::prelude::*;
use vstd::string::StringExecFns;

use crate::host::HostIdentity;
use crate::routing::{
    binding_key, lemma_table_map_push, table_map, Binding, DispatchTable, Handler, Method,
    RouteGroup,
};

verus! {

/// The path of the host-identity endpoint.
pub open spec fn root_path() -> Seq<char> {
    "/"@
}

/// The path of the benchmark endpoint.
pub open spec fn bench_path() -> Seq<char> {
    "/bench"@
}

/// The path of the greeting endpoint.
pub open spec fn hello_path() -> Seq<char> {
    "/hello"@
}

/// The path of the streaming echo endpoint.
pub open spec fn echo_path() -> Seq<char> {
    "/echo"@
}

/// Every (method, path) pair the demo surface serves.
pub open spec fn standard_keys() -> Set<(Method, Seq<char>)> {
    set![
        (Method::Get, root_path()),
        (Method::Get, bench_path()),
        (Method::Post, bench_path()),
        (Method::Put, bench_path()),
        (Method::Get, hello_path()),
        (Method::Post, hello_path()),
        (Method::Put, hello_path()),
        (Method::Post, echo_path()),
        (Method::Put, echo_path()),
    ]
}

/// Whether a handler is the fixed greeting.
pub open spec fn is_hello_handler(h: Handler) -> bool {
    h matches Handler::Fixed(b) && b@ == "hello, world"@
}

/// Whether a handler is the fixed benchmark payload.
pub open spec fn is_bench_handler(h: Handler) -> bool {
    h matches Handler::Fixed(b) && b@ == "1"@
}

/// Builds the demo dispatch table around the given snapshot:
/// GET `/` renders the snapshot; GET/POST/PUT `/bench` return `1`;
/// GET/POST/PUT `/hello` return `hello, world`; POST/PUT `/echo` stream the
/// request body back. Nothing else is bound.
pub fn standard_table(host: HostIdentity) -> (t: DispatchTable)
    ensures
        table_map(t@).dom() == standard_keys(),
        table_map(t@)[(Method::Get, root_path())].handler == Handler::HostInfo(host),
        is_bench_handler(table_map(t@)[(Method::Get, bench_path())].handler),
        is_bench_handler(table_map(t@)[(Method::Post, bench_path())].handler),
        is_bench_handler(table_map(t@)[(Method::Put, bench_path())].handler),
        is_hello_handler(table_map(t@)[(Method::Get, hello_path())].handler),
        is_hello_handler(table_map(t@)[(Method::Post, hello_path())].handler),
        is_hello_handler(table_map(t@)[(Method::Put, hello_path())].handler),
        table_map(t@)[(Method::Post, echo_path())].handler is Echo,
        table_map(t@)[(Method::Put, echo_path())].handler is Echo,
{
    proof {
        reveal_strlit("/");
        reveal_strlit("/bench");
        reveal_strlit("/hello");
        reveal_strlit("/echo");
        assert(root_path().len() == 1 && bench_path().len() == 6 && hello_path().len() == 6
            && echo_path().len() == 5);
        assert(bench_path() != hello_path()) by {
            assert(bench_path()[1] == 'b' && hello_path()[1] == 'h');
        }
    }
    let mut whoami_group = RouteGroup::new();
    let r0 = whoami_group.bind(Method::Get, String::from_str("/"), Handler::HostInfo(host));
    proof {
        assert(r0 is Ok);
    }

    let mut bench_group = RouteGroup::new();
    let r1 = bench_group.bind(
        Method::Get,
        String::from_str("/bench"),
        Handler::Fixed(String::from_str("1")),
    );
    proof {
        assert(r1 is Ok);
    }
    let r2 = bench_group.bind(
        Method::Post,
        String::from_str("/bench"),
        Handler::Fixed(String::from_str("1")),
    );
    proof {
        assert(r2 is Ok);
    }
    let r3 = bench_group.bind(
        Method::Put,
        String::from_str("/bench"),
        Handler::Fixed(String::from_str("1")),
    );
    proof {
        assert(r3 is Ok);
    }

    let mut plain_group = RouteGroup::new();
    let r4 = plain_group.bind(
        Method::Get,
        String::from_str("/hello"),
        Handler::Fixed(String::from_str("hello, world")),
    );
    proof {
        assert(r4 is Ok);
    }
    let r5 = plain_group.bind(
        Method::Post,
        String::from_str("/hello"),
        Handler::Fixed(String::from_str("hello, world")),
    );
    proof {
        assert(r5 is Ok);
    }
    let r6 = plain_group.bind(
        Method::Put,
        String::from_str("/hello"),
        Handler::Fixed(String::from_str("hello, world")),
    );
    proof {
        assert(r6 is Ok);
    }
    let r7 = plain_group.bind(Method::Post, String::from_str("/echo"), Handler::Echo);
    proof {
        assert(r7 is Ok);
    }
    let r8 = plain_group.bind(Method::Put, String::from_str("/echo"), Handler::Echo);
    proof {
        assert(r8 is Ok);
    }

    let ghost g1 = whoami_group@;
    let ghost g2 = bench_group@;
    let ghost g3 = plain_group@;
    let mut table = DispatchTable::new();
    table.merge(whoami_group);
    table.merge(bench_group);
    table.merge(plain_group);
    proof {
        let bs = table@;
        assert(bs =~= g1 + g2 + g3);
        assert(bs.len() == 9);
        assert(bs.subrange(0, 0) =~= Seq::<Binding>::empty());
        assert(bs.subrange(0, 1) =~= bs.subrange(0, 0).push(bs[0]));
        lemma_table_map_push(bs.subrange(0, 0), bs[0]);
        assert(bs.subrange(0, 2) =~= bs.subrange(0, 1).push(bs[1]));
        lemma_table_map_push(bs.subrange(0, 1), bs[1]);
        assert(bs.subrange(0, 3) =~= bs.subrange(0, 2).push(bs[2]));
        lemma_table_map_push(bs.subrange(0, 2), bs[2]);
        assert(bs.subrange(0, 4) =~= bs.subrange(0, 3).push(bs[3]));
        lemma_table_map_push(bs.subrange(0, 3), bs[3]);
        assert(bs.subrange(0, 5) =~= bs.subrange(0, 4).push(bs[4]));
        lemma_table_map_push(bs.subrange(0, 4), bs[4]);
        assert(bs.subrange(0, 6) =~= bs.subrange(0, 5).push(bs[5]));
        lemma_table_map_push(bs.subrange(0, 5), bs[5]);
        assert(bs.subrange(0, 7) =~= bs.subrange(0, 6).push(bs[6]));
        lemma_table_map_push(bs.subrange(0, 6), bs[6]);
        assert(bs.subrange(0, 8) =~= bs.subrange(0, 7).push(bs[7]));
        lemma_table_map_push(bs.subrange(0, 7), bs[7]);
        assert(bs.subrange(0, 9) =~= bs.subrange(0, 8).push(bs[8]));
        lemma_table_map_push(bs.subrange(0, 8), bs[8]);
        assert(bs.subrange(0, 9) =~= bs);
        assert(binding_key(bs[0]) == (Method::Get, root_path()));
        assert(binding_key(bs[1]) == (Method::Get, bench_path()));
        assert(binding_key(bs[2]) == (Method::Post, bench_path()));
        assert(binding_key(bs[3]) == (Method::Put, bench_path()));
        assert(binding_key(bs[4]) == (Method::Get, hello_path()));
        assert(binding_key(bs[5]) == (Method::Post, hello_path()));
        assert(binding_key(bs[6]) == (Method::Put, hello_path()));
        assert(binding_key(bs[7]) == (Method::Post, echo_path()));
        assert(binding_key(bs[8]) == (Method::Put, echo_path()));
        assert(root_path() != bench_path() && root_path() != hello_path() && root_path()
            != echo_path() && bench_path() != hello_path() && bench_path() != echo_path()
            && hello_path() != echo_path());
        assert(table_map(bs).dom() =~= standard_keys());
    }
    table
}

} // verus!
