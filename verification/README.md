# mapecd

A daemon that connects a customer edge to a MAP-E network (RFC 7597). It learns a delegated
prefix and mapping rules over DHCPv6 (RFC 7598), computes from them a shared IPv4 address and a
set of ports, and sets up a tunnel, routes and packet rules on Linux.

## Layout

`src/` is the library: everything that can be computed, verified with Verus.

| Module | What it holds |
| --- | --- |
| `map` | mapping rules, EA bits, CE addresses, port sets |
| `mape` | rules as a DHCPv6 option carries them, and their port sets |
| `ebpf` | the one-to-one translation between staging ports and PSID ports, and packets |
| `dhcpv6` | messages, options, replies, the client, captured frames, lease files |
| `config`, `cli`, `variables` | configuration, command line and environment |
| `netlink`, `nftables` | what the kernel is told |
| `daemon` | what the daemon knows, decides and does, step by step |
| `net`, `text`, `bits`, `error` | addresses, text, powers of two, errors |

`app/` is the program around it: sockets, files, signals, netlink, `nft` and eBPF. The library
tells it what to do next and is told what came of it.

`tests/` are the tests of the library.

## Running it

`mapecd start` runs the daemon, `mapecd status` shows whether it runs, and `mapecd stop` asks it
to end; it then takes down what it has set up. The kernel side of the packet translation is
expected at `/usr/lib/mapecd/mapecd-ebpf-prog`.

Variables of the environment override the keys of the configuration file: `MAPECD_` and the key in
capitals, such as `MAPECD_TUNNEL_MTU=1400`. `MAPECD_WAN_INTERFACE` stands for
`MAPECD_UPSTREAM_INTERFACE` too, and `MAPECD_DHCPV6__MODE` for `MAPECD_DHCPV6_MODE`. The log level
is that of `RUST_LOG`, else of `--log-level`, else of `MAPECD_LOG_LEVEL`.

At its start the daemon removes what an earlier run may have left behind: its packet rules, any
interface that has the name of the tunnel, and all `/128` addresses of the upstream interface. So
that interface must not carry `/128` addresses for other purposes.

## What is proved

Each function states in its contract what it returns. Beside the contracts stand laws, as public
proof functions named `lemma_...`; among them:

- the PSIDs of a rule share out the ports from `2^(a+k)` on without overlap
  (`map::port_set`);
- where the EA bits are just the host bits of the IPv4 network and the PSID, no two delegated
  prefixes under a rule get the same address and PSID (`map::calc`);
- the address of a customer edge lies in its delegated prefix, if that has at most 64 bits
  (`map::calc`);
- the port translation is one-to-one, and the answer to a packet is translated back
  (`ebpf::psid`, `ebpf::translate`);
- variables of the environment that are not the daemon's own leave its configuration as it is
  (`config`);
- what the client does not wait for makes it send nothing and leaves its wait running
  (`dhcpv6::client`);
- the client announces only answers to the transaction that it waits for, never takes known
  rules away without bringing others, and gives a lease that has not ended back when it is told
  to stop (`dhcpv6::client`);
- a forwarding setting that setting up has read is written back by taking down, however far
  the setting up came; the packet translation is attached before the rules that need it, and
  detached after them when all is taken down (`daemon::lifecycle`);
- after a change that failed, both the new mapping and the old one are taken down
  (`daemon::runner`).

What is taken on trust is marked `external_body` or `assume_specification`, with a comment that
names the outside function and what is claimed of it.
