# rail2ban

rail2ban watches log files, counts the failures that each host causes, and has
firewall commands run to ban the hosts that cause too many.

`src/` is a library whose behaviour is stated in contracts and proved by Verus.
It does no input or output: it is handed lines, files, times and the outcome of
commands as values, and answers with what is to be done next.

- `text`, `table`: strings and ordered tables, and what is done with them
- `time`, `ip`, `notation`: durations, addresses, networks and how they are
  written
- `config`: INI files, variables, and the jails, filters and actions that they
  describe
- `filter`: tags, date patterns, and what a log line tells of a failure
- `action`: command templates, and the order in which an action's commands run
- `server`: failures, bans, the record of bans, jails, and the commands of
  clients
- `backend`: how log files are followed
- `protocol`: requests and responses
- `web`: administrators, sessions, rate limits and the answers of the web
  interface

Laws that hold across functions are public proof functions named `law_...`,
beside what they speak of; `server::invariants` holds those of the whole server.

`app/` is ordinary Rust around the library: command line, files, sockets,
processes, SQLite and HTTP. `tests/` runs the library on concrete values.
