# counterparser

A request filter for an HTTP front end. nginx asks `/check` about each request
(`auth_request`) and shows the client what `/respond` renders when the request is
turned away. Requests are counted per address in fixed windows; addresses over the
threshold are told apart by forward-confirmed reverse DNS: hosts that pose as a known
bot or are not known at all are cooled down, and clients without a confirmed host name
get a challenge that sets a signed cookie.

- `src/` is the library, verified with Verus: settings, address and bot matching,
  cookies, counting, the decisions between one lookup and the next, the pages, and what
  each endpoint answers.
- `app/` is the daemon around it: the settings file, the socket, HTTP and DNS.
- `tests/` runs the library on concrete values.

| Module      | What it holds                                                        |
|-------------|----------------------------------------------------------------------|
| `config`    | the settings, cooldown durations, the whitelist                      |
| `net`       | addresses and networks                                               |
| `ip_pools`  | which known bot an address or a host name belongs to                 |
| `challenge` | signed cookies                                                       |
| `dns`       | forward-confirmed reverse DNS as a machine of steps and answers      |
| `analyze`   | the verdict on a request, before and after the lookup                |
| `state`     | hits, verdicts, cooldowns, counters and the figures over them        |
| `store`     | the collections behind `state`, with what their methods are taken to do |
| `responses` | the pages                                                            |
| `routes`    | headers in, status or page out                                       |
| `table`, `number`, `text` | tables by name, numbers in text, operations on text    |
